use vstd::prelude::*;

verus! {

/// The lower-case form of a string, as `str::to_lowercase` computes it.
pub uninterp spec fn lowercase_of(s: Seq<char>) -> Seq<char>;

/// Relies on `str::to_lowercase`: the result depends on the characters alone.
#[verifier::external_body]
pub(crate) fn to_lower(s: &String) -> (r: String)
    ensures
        r@ == lowercase_of(s@),
{
    s.to_lowercase()
}

/// Two natural keys name the same resource when they agree once lower-cased.
pub open spec fn same_key(a: Seq<char>, b: Seq<char>) -> bool {
    lowercase_of(a) == lowercase_of(b)
}

/// Compares two natural keys without regard to case.
pub fn keys_match(a: &String, b: &String) -> (r: bool)
    ensures
        r == same_key(a@, b@),
{
    let la = to_lower(a);
    let lb = to_lower(b);
    la == lb
}

/// How a flag is written in a difference report.
pub open spec fn bool_text(b: bool) -> Seq<char> {
    if b {
        "true"@
    } else {
        "false"@
    }
}

/// Writes a flag as `true` or `false`.
pub fn bool_to_string(b: bool) -> (r: String)
    ensures
        r@ == bool_text(b),
{
    if b {
        String::from_str("true")
    } else {
        String::from_str("false")
    }
}

/// The decimal digits of a number, most significant first.
pub open spec fn decimal_text(n: nat) -> Seq<char>
    decreases n,
{
    if n < 10 {
        seq![digit_char(n)]
    } else {
        decimal_text(n / 10).push(digit_char(n % 10))
    }
}

pub open spec fn digit_char(d: nat) -> char {
    if d == 0 { '0' }
    else if d == 1 { '1' }
    else if d == 2 { '2' }
    else if d == 3 { '3' }
    else if d == 4 { '4' }
    else if d == 5 { '5' }
    else if d == 6 { '6' }
    else if d == 7 { '7' }
    else if d == 8 { '8' }
    else { '9' }
}

/// Relies on `u16`'s `Display` (through `ToString`): plain decimal digits,
/// no sign, no padding.
#[verifier::external_body]
pub(crate) fn u16_to_string(n: u16) -> (r: String)
    ensures
        r@ == decimal_text(n as nat),
{
    n.to_string()
}

/// The text an optional value is reported as: its content, or nothing.
pub open spec fn opt_text(o: Option<Seq<char>>) -> Seq<char> {
    match o {
        Some(s) => s,
        None => Seq::empty(),
    }
}

pub open spec fn opt_view(o: Option<String>) -> Option<Seq<char>> {
    match o {
        Some(s) => Some(s@),
        None => None,
    }
}

/// Compares two optional strings by content.
pub fn opt_eq(a: &Option<String>, b: &Option<String>) -> (r: bool)
    ensures
        r == (opt_view(*a) == opt_view(*b)),
{
    match (a, b) {
        (Some(x), Some(y)) => *x == *y,
        (None, None) => true,
        _ => false,
    }
}

/// The reported text of an optional string.
pub fn opt_to_string(o: &Option<String>) -> (r: String)
    ensures
        r@ == opt_text(opt_view(*o)),
{
    match o {
        Some(s) => s.clone(),
        None => String::new(),
    }
}

} // verus!
