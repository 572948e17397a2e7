use aleo_prover_actor::account::key_report;
use aleo_prover_actor::create_key;

#[test]
fn key_report_layout() {
    let r = key_report("PK", "VK", "ADDR");
    assert_eq!(
        r,
        "Private key:  PK\n   View key:  VK\n    Address:  ADDR\n\nWARNING: Make sure you have a backup of both private key and view key!\n                  Nobody can help you recover those keys if you lose them!\n"
    );
}

#[test]
fn created_keys_have_the_aleo_forms() {
    let r = create_key().expect("account generation");
    let lines: Vec<&str> = r.lines().collect();
    assert_eq!(lines.len(), 6);
    assert!(lines[0].starts_with("Private key:  APrivateKey1"));
    assert!(lines[1].starts_with("   View key:  AViewKey1"));
    assert!(lines[2].starts_with("    Address:  aleo1"));
    assert_eq!(lines[2].len(), "    Address:  ".len() + 63);
    let other = create_key().expect("account generation");
    assert_ne!(r, other);
}
