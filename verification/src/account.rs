//! Aleo accounts: checking an address, and the report of a freshly generated account.
use snarkvm::prelude::{Address, PrivateKey, TestnetV0, ViewKey};
use vstd::prelude::*;

verus! {

/// Whether `s` is an Aleo account address that `snarkvm` accepts.
pub uninterp spec fn aleo_address_valid(s: Seq<char>) -> bool;

/// Checks an address with `snarkvm`'s `Address::from_str`. The contract claims that the
/// answer depends on the text alone, and that an accepted address has 63 characters
/// (`from_str` refuses any other byte length, and the bech32 decoder refuses non-ASCII text).
#[verifier::external_body]
pub(crate) fn address_is_valid(address: &str) -> (ok: bool)
    ensures
        ok == aleo_address_valid(address@),
        ok ==> address@.len() == 63,
{
    <Address<TestnetV0> as std::str::FromStr>::from_str(address).is_ok()
}

/// The view key that `snarkvm` derives (`ViewKey::try_from`) from the private key whose
/// text is `private_key`, as it displays it.
pub uninterp spec fn view_key_of(private_key: Seq<char>) -> Seq<char>;

/// The address that `snarkvm` derives (`Address::try_from`) from the private key whose text
/// is `private_key`, as it displays it.
pub uninterp spec fn address_of(private_key: Seq<char>) -> Seq<char>;

/// Creates an account with `snarkvm` (`PrivateKey::new` from the thread's random generator,
/// with the view key and the address derived from it by `try_from`) and renders its three
/// keys as `snarkvm` displays them; `None` stands for an error of one of the derivations.
/// The keys are random. The contract claims only what `snarkvm`'s display code and its
/// tests show of every outcome: the private key text begins with `APrivateKey1`, the view
/// key text with `AViewKey1`, and the address text is one that `Address::from_str` accepts
/// (display and parsing of an address round-trip); the view key and the address are those
/// derived from the private key, which its text determines.
#[verifier::external_body]
fn generate_account() -> (keys: Option<(String, String, String)>)
    ensures
        keys matches Some((private_key, view_key, address)) ==> {
            &&& "APrivateKey1"@.is_prefix_of(private_key@)
            &&& "AViewKey1"@.is_prefix_of(view_key@)
            &&& aleo_address_valid(address@)
            &&& view_key@ == view_key_of(private_key@)
            &&& address@ == address_of(private_key@)
        },
{
    let private_key = PrivateKey::<TestnetV0>::new(&mut rand::rng()).ok()?;
    let view_key = ViewKey::try_from(&private_key).ok()?;
    let address = Address::try_from(&private_key).ok()?;
    Some((private_key.to_string(), view_key.to_string(), address.to_string()))
}

/// The text shown for an account.
pub open spec fn key_report_text(private_key: Seq<char>, view_key: Seq<char>, address: Seq<char>) -> Seq<char> {
    "Private key:  "@ + private_key + "\n"@ + "   View key:  "@ + view_key + "\n"@ + "    Address:  "@
        + address + "\n"@ + "\nWARNING: Make sure you have a backup of both private key and view key!\n"@
        + "                  Nobody can help you recover those keys if you lose them!\n"@
}

/// Renders the keys of an account with the backup warning.
pub fn key_report(private_key: &str, view_key: &str, address: &str) -> (r: String)
    ensures
        r@ == key_report_text(private_key@, view_key@, address@),
{
    let mut r = String::from_str("Private key:  ");
    r.append(private_key);
    r.append("\n");
    r.append("   View key:  ");
    r.append(view_key);
    r.append("\n");
    r.append("    Address:  ");
    r.append(address);
    r.append("\n");
    r.append("\nWARNING: Make sure you have a backup of both private key and view key!\n");
    r.append("                  Nobody can help you recover those keys if you lose them!\n");
    assert(r@ =~= key_report_text(private_key@, view_key@, address@));
    r
}

/// Generates a new account and reports its keys: the private key, and the view key and the
/// address derived from it, each of the form `snarkvm` gives it; `None` when the generation
/// failed.
pub fn create_key() -> (r: Option<String>)
    ensures
        r matches Some(text) ==> exists|pk: Seq<char>, vk: Seq<char>, addr: Seq<char>|
            #![trigger key_report_text(pk, vk, addr)]
            {
                &&& text@ == key_report_text(pk, vk, addr)
                &&& "APrivateKey1"@.is_prefix_of(pk)
                &&& "AViewKey1"@.is_prefix_of(vk)
                &&& aleo_address_valid(addr)
                &&& vk == view_key_of(pk)
                &&& addr == address_of(pk)
            },
{
    match generate_account() {
        Some((private_key, view_key, address)) => {
            let text = key_report(private_key.as_str(), view_key.as_str(), address.as_str());
            assert(text@ == key_report_text(private_key@, view_key@, address@));
            Some(text)
        },
        None => None,
    }
}

} // verus!
