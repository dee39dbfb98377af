use vstd::prelude::*;

verus! {

/// What `str::trim` leaves of a string: leading and trailing white space removed.
pub uninterp spec fn trim_of(s: Seq<char>) -> Seq<char>;

/// What `str::to_uppercase` makes of a string.
pub uninterp spec fn upper_of(s: Seq<char>) -> Seq<char>;

/// Relies on `str::trim`: the result depends on the characters alone.
#[verifier::external_body]
fn trimmed(s: &str) -> (r: String)
    ensures
        r@ == trim_of(s@),
{
    s.trim().to_string()
}

/// Relies on `str::to_uppercase`: the result depends on the characters alone.
#[verifier::external_body]
fn uppercased(s: &str) -> (r: String)
    ensures
        r@ == upper_of(s@),
{
    s.to_uppercase()
}

/// `s` without its trailing run of `'0'` characters.
pub open spec fn strip_trailing_zeros(s: Seq<char>) -> Seq<char>
    decreases s.len(),
{
    if s.len() > 0 && s.last() == '0' {
        strip_trailing_zeros(s.drop_last())
    } else {
        s
    }
}

/// The canonical form under which route codes are compared: trimmed,
/// upper-cased, trailing zeros removed.
pub open spec fn route_key(route: Seq<char>) -> Seq<char> {
    strip_trailing_zeros(upper_of(trim_of(route)))
}

/// Whether a vehicle's route code and a schedule route id name the same route.
pub open spec fn same_route(bus_route: Seq<char>, route_id: Seq<char>) -> bool {
    route_key(bus_route).len() > 0 && route_key(bus_route) == route_key(route_id)
}

fn strip_zeros(s: &str) -> (r: String)
    ensures
        r@ == strip_trailing_zeros(s@),
{
    let mut n: usize = s.unicode_len();
    assert(s@.subrange(0, n as int) =~= s@);
    while n > 0 && s.get_char(n - 1) == '0'
        invariant
            n <= s@.len(),
            strip_trailing_zeros(s@) == strip_trailing_zeros(s@.subrange(0, n as int)),
        decreases n,
    {
        let ghost prefix = s@.subrange(0, n as int);
        assert(prefix.drop_last() =~= s@.subrange(0, n - 1));
        n = n - 1;
    }
    assert(s@.subrange(0, n as int).len() == 0 || s@.subrange(0, n as int).last() != '0');
    String::from_str(s.substring_char(0, n))
}

/// Trims, upper-cases and drops trailing zeros, so that `"t7890 "` and
/// `"T789"` compare equal.
pub fn normalize_route_code(route: &str) -> (r: String)
    ensures
        r@ == route_key(route@),
{
    let t = trimmed(route);
    let u = uppercased(t.as_str());
    strip_zeros(u.as_str())
}

/// True when both codes normalise to the same non-empty key.
pub fn is_bus_on_route(bus_route: &str, route_id: &str) -> (r: bool)
    ensures
        r == same_route(bus_route@, route_id@),
{
    let bus_base = normalize_route_code(bus_route);
    let route_base = normalize_route_code(route_id);
    bus_base.unicode_len() > 0 && bus_base == route_base
}

/// True for every spelling of route T789 (`"T7890"`, `" t789 "`, ...).
pub fn is_t789_route(route: &str) -> (r: bool)
    ensures
        r == (route_key(route@) == "T789"@),
{
    let key = normalize_route_code(route);
    let target = String::from_str("T789");
    key == target
}

} // verus!
