use vstd::prelude::*;

verus! {

/// What looking an address up in the GeoIP country database gave.
#[derive(Debug, PartialEq, Eq)]
pub enum CountryLookup {
    /// The lookup failed (a database error).
    Failed,
    /// The address, or a country code for it, is not in the database.
    Unknown,
    /// The ISO code of the country the address belongs to.
    Country(String),
}

impl View for CountryLookup {
    /// `None` for a failed lookup, `Some(None)` when no country is known,
    /// `Some(Some(code))` for a country code.
    type V = Option<Option<Seq<char>>>;

    open spec fn view(&self) -> Option<Option<Seq<char>>> {
        match self {
            CountryLookup::Failed => None,
            CountryLookup::Unknown => Some(None),
            CountryLookup::Country(code) => Some(Some(code@)),
        }
    }
}

/// Whether a country code is one whose clients are let through: mainland
/// China (`CN`), or the database's label for private networks (`PRIVATE`).
pub open spec fn country_admitted(code: Seq<char>) -> bool {
    code == "CN"@ || code == "PRIVATE"@
}

/// Whether a lookup result lets the client through: a known country must
/// be admitted; when no country is known, or the lookup failed, the client
/// is let through.
pub open spec fn lookup_admits(lookup: Option<Option<Seq<char>>>) -> bool {
    match lookup {
        Some(Some(code)) => country_admitted(code),
        _ => true,
    }
}

/// Of the clients whose country is known, exactly those in mainland China
/// (`CN`) or on a private network (`PRIVATE`) are let through; every other
/// code, however close, is blocked.
pub proof fn lemma_only_china_and_private_admitted(code: Seq<char>)
    ensures
        lookup_admits(Some(Some(code))) <==> (code == "CN"@ || code == "PRIVATE"@),
        code != "CN"@ && code != "PRIVATE"@ ==> !lookup_admits(Some(Some(code))),
{
}

/// A client whose country is unknown, or whose lookup failed, is let
/// through.
pub proof fn lemma_unknown_country_admitted()
    ensures
        lookup_admits(None),
        lookup_admits(Some(None)),
{
}

/// The verdict on a client from what the lookup of its address in the
/// GeoIP country database gave: the decision of the proxy's GeoIP filter.
pub fn admits(lookup: &CountryLookup) -> (r: bool)
    ensures
        r == lookup_admits(lookup@),
        lookup@ matches Some(Some(code)) ==> (r <==> (code == "CN"@ || code == "PRIVATE"@)),
        !(lookup@ matches Some(Some(_))) ==> r,
{
    match lookup {
        CountryLookup::Country(code) => {
            let china = "CN".to_owned();
            let private = "PRIVATE".to_owned();
            *code == china || *code == private
        },
        _ => true,
    }
}

} // verus!
