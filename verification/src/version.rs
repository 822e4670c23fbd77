//! The build-version rules: parsing major and minor release numbers out
//! of a branch label of the form `++Fortnite+Release-<major>.<minor>`,
//! and the version-gated layout selection for elimination records.
use vstd::prelude::*;
use vstd::std_specs::iter::IteratorSpec;
use crate::err::ParseError;

verus! {

broadcast use vstd::string::next_postcondition, vstd::string::axiom_spec_iter;

/// A decimal digit character.
pub open spec fn is_digit_char(c: char) -> bool {
    '0' <= c && c <= '9'
}

/// The literal prefix that a branch label must carry before the release
/// numbers.
pub open spec fn branch_lit() -> Seq<char> {
    seq![
        '+',
        '+',
        'F',
        'o',
        'r',
        't',
        'n',
        'i',
        't',
        'e',
        '+',
        'R',
        'e',
        'l',
        'e',
        'a',
        's',
        'e',
        '-',
    ]
}

/// The position just past the run of digit characters starting at `k`.
pub open spec fn digit_run_end(s: Seq<char>, k: int) -> int
    decreases s.len() - k,
{
    if k < 0 || k >= s.len() {
        k
    } else if is_digit_char(s[k]) {
        digit_run_end(s, k + 1)
    } else {
        k
    }
}

/// Whether the version pattern matches at position `i`: the literal
/// prefix, then at least one digit, then a dot.
pub open spec fn match_at(s: Seq<char>, i: int) -> bool {
    let j = i + 19;
    &&& 0 <= i
    &&& j <= s.len()
    &&& s.subrange(i, j) == branch_lit()
    &&& digit_run_end(s, j) > j
    &&& digit_run_end(s, j) < s.len()
    &&& s[digit_run_end(s, j)] == '.'
}

/// The leftmost position at or after `i` where the version pattern
/// matches, if any.
pub open spec fn find_match(s: Seq<char>, i: int) -> Option<int>
    decreases s.len() - i,
{
    if i < 0 || i + 19 > s.len() {
        None
    } else if match_at(s, i) {
        Some(i)
    } else {
        find_match(s, i + 1)
    }
}

/// The numeric value of one digit character.
pub open spec fn digit_val(c: char) -> nat
    recommends
        is_digit_char(c),
{
    (c as u32 - 48) as nat
}

/// The value of a run of digit characters read as a decimal number.
pub open spec fn dec_val(ds: Seq<char>) -> nat
    decreases ds.len(),
{
    if ds.len() == 0 {
        0
    } else {
        10 * dec_val(ds.drop_last()) + digit_val(ds.last())
    }
}

/// The (major, minor) release numbers carried by a branch label: at the
/// leftmost pattern match, the digits after the literal prefix and the
/// digits after the dot, each read as a decimal number that must fit in a
/// `u32`, the minor run non-empty. `None` when the label lacks the
/// pattern or a number does not parse.
pub open spec fn spec_branch_version(s: Seq<char>) -> Option<(u32, u32)> {
    match find_match(s, 0) {
        None => None,
        Some(i) => {
            let j = i + 19;
            let e1 = digit_run_end(s, j);
            let m2 = e1 + 1;
            let e2 = digit_run_end(s, m2);
            let majd = s.subrange(j, e1);
            let mind = s.subrange(m2, e2);
            if mind.len() == 0 || dec_val(majd) > u32::MAX || dec_val(mind) > u32::MAX {
                None
            } else {
                Some((dec_val(majd) as u32, dec_val(mind) as u32))
            }
        },
    }
}

/// A found match position indeed carries a pattern match.
proof fn lemma_find_match_some(s: Seq<char>, i: int, m: int)
    requires
        find_match(s, i) == Some(m),
    ensures
        match_at(s, m),
        i <= m,
        m + 19 <= s.len(),
    decreases s.len() - i,
{
    if i < 0 || i + 19 > s.len() {
    } else if match_at(s, i) {
    } else {
        lemma_find_match_some(s, i + 1, m);
    }
}

/// The value of a digit-run prefix never exceeds the value of the whole
/// run.
proof fn lemma_dec_val_prefix(ds: Seq<char>, k: int)
    requires
        0 <= k <= ds.len(),
    ensures
        dec_val(ds.subrange(0, k)) <= dec_val(ds),
    decreases ds.len(),
{
    if k == ds.len() {
        assert(ds.subrange(0, k) =~= ds);
    } else {
        lemma_dec_val_prefix(ds.drop_last(), k);
        assert(ds.drop_last().subrange(0, k) =~= ds.subrange(0, k));
    }
}

fn chars_of(s: &str) -> (r: Vec<char>)
    ensures
        r@ == s@,
{
    let mut it = s.chars();
    let mut v: Vec<char> = Vec::new();
    loop
        invariant
            v@ + it.remaining() == s@,
        ensures
            v@ == s@,
        decreases s@.len() - v@.len(),
    {
        match it.next() {
            None => { break },
            Some(c) => { v.push(c) },
        }
    }
    v
}

fn digit_at(v: &Vec<char>, k: usize) -> (r: bool)
    requires
        k < v@.len(),
    ensures
        r == is_digit_char(v@[k as int]),
{
    let c: char = v[k];
    '0' <= c && c <= '9'
}

fn digit_run_end_exec(v: &Vec<char>, k: usize) -> (r: usize)
    requires
        k <= v@.len(),
    ensures
        r as int == digit_run_end(v@, k as int),
        k <= r <= v@.len(),
        forall|t: int| k <= t < r ==> is_digit_char(#[trigger] v@[t]),
    {
    let mut r: usize = k;
    while r < v.len() && digit_at(v, r)
        invariant
            k <= r <= v@.len(),
            digit_run_end(v@, k as int) == digit_run_end(v@, r as int),
            forall|t: int| k <= t < r ==> is_digit_char(#[trigger] v@[t]),
        decreases v@.len() - r,
    {
        r = r + 1;
    }
    r
}

fn branch_lit_vec() -> (r: Vec<char>)
    ensures
        r@ == branch_lit(),
{
    let mut v: Vec<char> = Vec::new();
    v.push('+');
    v.push('+');
    v.push('F');
    v.push('o');
    v.push('r');
    v.push('t');
    v.push('n');
    v.push('i');
    v.push('t');
    v.push('e');
    v.push('+');
    v.push('R');
    v.push('e');
    v.push('l');
    v.push('e');
    v.push('a');
    v.push('s');
    v.push('e');
    v.push('-');
    proof {
        assert(v@ =~= branch_lit());
    }
    v
}

fn match_at_exec(v: &Vec<char>, lit: &Vec<char>, i: usize) -> (r: bool)
    requires
        lit@ == branch_lit(),
        i + 19 <= v@.len(),
    ensures
        r == match_at(v@, i as int),
{
    let n = v.len();
    let mut t: usize = 0;
    while t < 19
        invariant
            t <= 19,
            i + 19 <= v@.len(),
            n == v@.len(),
            lit@ == branch_lit(),
            forall|u: int| 0 <= u < t ==> v@[i + u] == branch_lit()[u],
        decreases 19 - t,
    {
        if v[i + t] != lit[t] {
            proof {
                assert(v@.subrange(i as int, i as int + 19) != branch_lit()) by {
                    assert(v@.subrange(i as int, i as int + 19)[t as int] == v@[i + t]);
                }
            }
            return false;
        }
        t = t + 1;
    }
    proof {
        assert(v@.subrange(i as int, i as int + 19) =~= branch_lit());
    }
    let j = i + 19;
    let e1 = digit_run_end_exec(v, j);
    e1 > j && e1 < v.len() && digit_dot_at(v, e1)
}

fn digit_dot_at(v: &Vec<char>, k: usize) -> (r: bool)
    requires
        k < v@.len(),
    ensures
        r == (v@[k as int] == '.'),
{
    let c: char = v[k];
    c == '.'
}

fn find_match_exec(v: &Vec<char>, lit: &Vec<char>) -> (r: Option<usize>)
    requires
        lit@ == branch_lit(),
    ensures
        r is Some ==> find_match(v@, 0) == Some(r.unwrap() as int),
        r is None ==> find_match(v@, 0) is None,
{
    let mut i: usize = 0;
    while v.len() >= 19 && i <= v.len() - 19
        invariant
            i <= v@.len(),
            lit@ == branch_lit(),
            find_match(v@, 0) == find_match(v@, i as int),
        decreases v@.len() - i,
    {
        if match_at_exec(v, lit, i) {
            return Some(i);
        }
        i = i + 1;
    }
    None
}

fn parse_u32_digits(v: &Vec<char>, start: usize, end: usize) -> (r: Option<u32>)
    requires
        start <= end <= v@.len(),
        forall|k: int| start <= k < end ==> is_digit_char(#[trigger] v@[k]),
    ensures
        r is Some <==> dec_val(v@.subrange(start as int, end as int)) <= u32::MAX,
        r is Some ==> r.unwrap() as nat == dec_val(v@.subrange(start as int, end as int)),
{
    let mut val: u64 = 0;
    let mut i: usize = start;
    while i < end
        invariant
            start <= i <= end <= v@.len(),
            forall|k: int| start <= k < end ==> is_digit_char(#[trigger] v@[k]),
            val as nat == dec_val(v@.subrange(start as int, i as int)),
            val <= u32::MAX,
        decreases end - i,
    {
        let c: char = v[i];
        let d: u32 = (c as u32) - 48;
        let nv: u64 = 10 * val + (d as u64);
        proof {
            assert(v@.subrange(start as int, i as int + 1).drop_last() =~= v@.subrange(
                start as int,
                i as int,
            ));
        }
        if nv > 0xFFFF_FFFF {
            proof {
                let full = v@.subrange(start as int, end as int);
                lemma_dec_val_prefix(full, i as int + 1 - start);
                assert(full.subrange(0, i as int + 1 - start) =~= v@.subrange(
                    start as int,
                    i as int + 1,
                ));
            }
            return None;
        }
        val = nv;
        i = i + 1;
    }
    Some(val as u32)
}

/// Parses the major and minor release numbers out of a branch label; a
/// label lacking the `++Fortnite+Release-<major>.<minor>` pattern, or one
/// whose numbers do not fit, is a format error.
pub fn parse_branch(branch: &str) -> (r: Result<(u32, u32), ParseError>)
    ensures
        r is Ok <==> spec_branch_version(branch@) is Some,
        r is Ok ==> r.unwrap() == spec_branch_version(branch@).unwrap(),
        r matches Err(e) ==> e is Format,
{
    let v = chars_of(branch);
    let lit = branch_lit_vec();
    let i = match find_match_exec(&v, &lit) {
        Some(i) => i,
        None => { return Err(ParseError::Format { offset: 0 }) },
    };
    proof {
        lemma_find_match_some(v@, 0, i as int);
    }
    let n = v.len();
    let j = i + 19;
    let e1 = digit_run_end_exec(&v, j);
    let m2 = e1 + 1;
    let e2 = digit_run_end_exec(&v, m2);
    if e2 == m2 {
        return Err(ParseError::Format { offset: 0 });
    }
    let maj = match parse_u32_digits(&v, j, e1) {
        Some(x) => x,
        None => { return Err(ParseError::Format { offset: 0 }) },
    };
    let min = match parse_u32_digits(&v, m2, e2) {
        Some(x) => x,
        None => { return Err(ParseError::Format { offset: 0 }) },
    };
    Ok((maj, min))
}

/// Whether an elimination record uses the rich tag-based player layout:
/// engine network version at least eleven and major release at least
/// nine.
pub open spec fn rich_player_layout(engine_network_version: u32, major: u32) -> bool {
    engine_network_version >= 11 && major >= 9
}

/// The size of the reserved region that the legacy elimination layout
/// skips, by version tier.
pub open spec fn legacy_skip_len(major: u32, minor: u32) -> int {
    if major <= 4 && minor < 2 {
        12
    } else if major == 4 && minor <= 2 {
        40
    } else {
        45
    }
}

/// The layout rule for elimination records: whether the rich tag-based
/// player layout applies, and how many reserved bytes to skip before the
/// player fields.
pub fn elimination_layout(engine_network_version: u32, major: u32, minor: u32) -> (r: (
    bool,
    usize,
))
    ensures
        r.0 == rich_player_layout(engine_network_version, major),
        r.0 ==> r.1 == 85,
        !r.0 ==> r.1 as int == legacy_skip_len(major, minor),
{
    if engine_network_version >= 11 && major >= 9 {
        (true, 85)
    } else if major <= 4 && minor < 2 {
        (false, 12)
    } else if major == 4 && minor <= 2 {
        (false, 40)
    } else {
        (false, 45)
    }
}

} // verus!
