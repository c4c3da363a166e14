use vstd::prelude::*;

verus! {

/// The characters that may separate the octets of a hardware address.
pub open spec fn is_separator(c: char) -> bool {
    c == '.' || c == ':' || c == '-'
}

pub open spec fn is_hex_digit(c: char) -> bool {
    ('0' <= c && c <= '9') || ('a' <= c && c <= 'f') || ('A' <= c && c <= 'F')
}

/// A hexadecimal digit in upper case; other characters are kept.
pub open spec fn upper_hex(c: char) -> char {
    if c == 'a' {
        'A'
    } else if c == 'b' {
        'B'
    } else if c == 'c' {
        'C'
    } else if c == 'd' {
        'D'
    } else if c == 'e' {
        'E'
    } else if c == 'f' {
        'F'
    } else {
        c
    }
}

/// The text of a hardware address with every separator taken out.
pub open spec fn hex_body(s: Seq<char>) -> Seq<char> {
    s.filter(|c: char| !is_separator(c))
}

/// The canonical form of a caller's hardware address: `None` unless, without
/// its separators, it is exactly twelve hexadecimal digits; otherwise those
/// digits in upper case, in pairs joined by `:`.
pub open spec fn canonical_mac(s: Seq<char>) -> Option<Seq<char>> {
    let t = hex_body(s);
    if t.len() == 12 && forall|i: int| 0 <= i < 12 ==> is_hex_digit(#[trigger] t[i]) {
        Some(
            seq![
                upper_hex(t[0]), upper_hex(t[1]), ':',
                upper_hex(t[2]), upper_hex(t[3]), ':',
                upper_hex(t[4]), upper_hex(t[5]), ':',
                upper_hex(t[6]), upper_hex(t[7]), ':',
                upper_hex(t[8]), upper_hex(t[9]), ':',
                upper_hex(t[10]), upper_hex(t[11])
            ],
        )
    } else {
        None
    }
}

/// Relies on eui's `EUI48::try_from(&str)`, which drops every `.`, `:` and
/// `-`, decodes the rest as hexadecimal (either case) and wants six bytes,
/// and on `EUI::to_colon_fmt`, which prints each byte as two upper-case
/// digits joined by `:`. The two stand together because an `EUI48` keeps its
/// bytes private, so only its text can leave this function.
#[verifier::external_body]
fn eui48_colon_fmt(s: &str) -> (r: Option<String>)
    ensures
        r is Some <==> canonical_mac(s@) is Some,
        r is Some ==> canonical_mac(s@) == Some(r->Some_0@),
{
    eui::EUI48::try_from(s).ok().map(|e| eui::EUI::to_colon_fmt(&e))
}

/// Checks a caller's hardware address and gives its canonical form.
pub fn valid_mac_address(mac_address: &str) -> (r: Result<String, crate::error::Error>)
    ensures
        match canonical_mac(mac_address@) {
            Some(m) => r is Ok && r->Ok_0@ == m,
            None => r == Err::<String, crate::error::Error>(crate::error::Error::InvalidMACAddress),
        },
{
    match eui48_colon_fmt(mac_address) {
        Some(m) => Ok(m),
        None => Err(crate::error::Error::InvalidMACAddress),
    }
}

proof fn lemma_hex_body_idempotent(s: Seq<char>)
    ensures
        hex_body(hex_body(s)) == hex_body(s),
    decreases s.len(),
{
    reveal(Seq::filter);
    if s.len() > 0 {
        lemma_hex_body_idempotent(s.drop_last());
        let t = hex_body(s.drop_last());
        if !is_separator(s.last()) {
            assert(t.push(s.last()).drop_last() =~= t);
        }
    }
}

proof fn lemma_hex_body_upper(s: Seq<char>)
    ensures
        hex_body(s.map_values(|c: char| upper_hex(c))) == hex_body(s).map_values(|c: char| upper_hex(c)),
    decreases s.len(),
{
    reveal(Seq::filter);
    if s.len() > 0 {
        lemma_hex_body_upper(s.drop_last());
        assert(s.map_values(|c: char| upper_hex(c)).drop_last() =~= s.drop_last().map_values(|c: char| upper_hex(c)));
        let t = hex_body(s.drop_last());
        assert(t.push(s.last()).map_values(|c: char| upper_hex(c)) =~= t.map_values(|c: char| upper_hex(c)).push(
            upper_hex(s.last()),
        ));
    }
}

/// The canonical form of a hardware address ignores its separators and the
/// case of its digits: two addresses that differ only there are the same
/// address to a lookup.
pub proof fn lemma_canonical_mac_normalizes(s: Seq<char>)
    ensures
        canonical_mac(hex_body(s)) == canonical_mac(s),
        canonical_mac(s.map_values(|c: char| upper_hex(c))) == canonical_mac(s),
{
    lemma_hex_body_idempotent(s);
    lemma_hex_body_upper(s);
    let t = hex_body(s);
    let u = t.map_values(|c: char| upper_hex(c));
    assert forall|i: int| 0 <= i < t.len() implies upper_hex(#[trigger] u[i]) == upper_hex(t[i]) && (is_hex_digit(u[i]) == is_hex_digit(t[i])) by {}
    if t.len() == 12 {
        if forall|i: int| 0 <= i < 12 ==> is_hex_digit(#[trigger] t[i]) {
            assert(forall|i: int| 0 <= i < 12 ==> is_hex_digit(#[trigger] u[i]) <== is_hex_digit(t[i]));
        } else {
            let j = choose|j: int| 0 <= j < 12 && !is_hex_digit(#[trigger] t[j]);
            assert(!is_hex_digit(u[j]));
        }
    }
}

} // verus!
