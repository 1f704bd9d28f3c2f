//! Path-pattern search over archive entry names. The export's internal
//! layout drifts across generations, so the three structural anchors and
//! the channel directories are found by pattern matching rather than by
//! fixed paths. Each matcher is proved against an exact statement of its
//! pattern.
use vstd::prelude::*;
use crate::text::{all_digits, digit_char, is_digit};

verus! {

/// `p` is a prefix of `s`.
pub open spec fn starts_with(s: Seq<char>, p: Seq<char>) -> bool {
    s.len() >= p.len() && s.subrange(0, p.len() as int) == p
}

/// `p` is a suffix of `s`.
pub open spec fn ends_with(s: Seq<char>, p: Seq<char>) -> bool {
    s.len() >= p.len() && s.subrange(s.len() - p.len(), s.len() as int) == p
}

/// Length of the run of consecutive decimal digits that ends just before
/// position `e`.
pub open spec fn digit_run(s: Seq<char>, e: int) -> int
    decreases e,
{
    if e <= 0 || e > s.len() {
        0
    } else if is_digit(s[e - 1]) {
        1 + digit_run(s, e - 1)
    } else {
        0
    }
}

/// The digit run before `e` is a well-formed maximal run: within bounds,
/// all digits, and stopped by the string start or a non-digit.
pub proof fn lemma_digit_run_bounds(s: Seq<char>, e: int)
    requires
        0 <= e <= s.len(),
    ensures
        0 <= digit_run(s, e) <= e,
        all_digits(s.subrange(e - digit_run(s, e), e)),
        digit_run(s, e) < e ==> !is_digit(s[e - 1 - digit_run(s, e)]),
    decreases e,
{
    if e > 0 && is_digit(s[e - 1]) {
        lemma_digit_run_bounds(s, e - 1);
        let d = digit_run(s, e);
        let w = s.subrange(e - d, e);
        let w0 = s.subrange(e - 1 - digit_run(s, e - 1), e - 1);
        assert forall|i: int| 0 <= i < w.len() implies is_digit(#[trigger] w[i]) by {
            if i < w.len() - 1 {
                assert(w[i] == w0[i]);
            }
        }
    } else {
        assert(s.subrange(e, e) =~= Seq::<char>::empty());
    }
}

/// If the `c` digits before `e` are digits and the run cannot extend
/// further left, the run length is exactly `c`.
pub proof fn lemma_digit_run_exact(s: Seq<char>, e: int, c: int)
    requires
        0 <= c <= e <= s.len(),
        all_digits(s.subrange(e - c, e)),
        c == e || !is_digit(s[e - 1 - c]),
    ensures
        digit_run(s, e) == c,
    decreases c,
{
    if c == 0 {
    } else {
        let w = s.subrange(e - c, e);
        assert(is_digit(s[e - 1])) by {
            assert(w[c - 1] == s[e - 1]);
        }
        assert(all_digits(s.subrange(e - 1 - (c - 1), e - 1))) by {
            let w1 = s.subrange(e - 1 - (c - 1), e - 1);
            assert forall|i: int| 0 <= i < w1.len() implies is_digit(#[trigger] w1[i]) by {
                assert(w1[i] == w[i]);
            }
        }
        lemma_digit_run_exact(s, e - 1, c - 1);
    }
}

/// Where a probe path pattern (`/c?<16-32 digits>/<marker file>` at the end
/// of the name) matches `s`, the position of the `/` that opens the id
/// segment; `None` where the pattern does not match. `allow_c` admits the
/// optional one-letter directory prefix of newer exports.
pub open spec fn probe_cut(s: Seq<char>, suffix: Seq<char>, allow_c: bool) -> Option<int> {
    let e = s.len() - suffix.len();
    if ends_with(s, suffix) {
        let d = digit_run(s, e as int);
        if 16 <= d <= 32 && d < e {
            let p = e - d - 1;
            if s[p] == '/' {
                Some(p)
            } else if allow_c && s[p] == 'c' && p > 0 && s[p - 1] == '/' {
                Some(p - 1)
            } else {
                None
            }
        } else {
            None
        }
    } else {
        None
    }
}

/// The pattern matches `s` with an id segment of `d` digits: the marker
/// suffix, immediately preceded by the digits, themselves opened by `/`
/// (or by `/c` where `allow_c` holds).
pub open spec fn probe_match_at(s: Seq<char>, suffix: Seq<char>, allow_c: bool, d: int) -> bool {
    let e = s.len() - suffix.len();
    &&& ends_with(s, suffix)
    &&& 16 <= d <= 32
    &&& d < e
    &&& all_digits(s.subrange(e - d, e))
    &&& {
        ||| s[e - d - 1] == '/'
        ||| (allow_c && s[e - d - 1] == 'c' && e - d - 1 > 0 && s[e - d - 2] == '/')
    }
}

/// `probe_cut` decides exactly the existential form of the pattern.
pub proof fn lemma_probe_cut_pattern(s: Seq<char>, suffix: Seq<char>, allow_c: bool)
    ensures
        probe_cut(s, suffix, allow_c) is Some <==> exists|d: int| probe_match_at(s, suffix, allow_c, d),
{
    let e = s.len() - suffix.len();
    if probe_cut(s, suffix, allow_c) is Some {
        let d = digit_run(s, e as int);
        lemma_digit_run_bounds(s, e as int);
        assert(probe_match_at(s, suffix, allow_c, d));
    }
    if exists|d: int| probe_match_at(s, suffix, allow_c, d) {
        let d = choose|d: int| probe_match_at(s, suffix, allow_c, d);
        assert(!is_digit(s[e - 1 - d]));
        lemma_digit_run_exact(s, e as int, d);
    }
}

/// Compare `b` against the window of `a` that starts at `off`.
pub fn chars_window_eq(a: &Vec<char>, off: usize, b: &Vec<char>) -> (r: bool)
    requires
        off + b@.len() <= a@.len(),
    ensures
        r == (a@.subrange(off as int, off + b@.len()) == b@),
{
    let n = a.len();
    let mut i: usize = 0;
    while i < b.len()
        invariant
            i <= b@.len(),
            off + b@.len() <= a@.len(),
            a@.len() == n,
            forall|j: int| 0 <= j < i ==> a@[off + j] == b@[j],
        decreases b@.len() - i,
    {
        if a[off + i] != b[i] {
            proof {
                let w = a@.subrange(off as int, off + b@.len());
                assert(w[i as int] == a@[off + i]);
            }
            return false;
        }
        i += 1;
    }
    proof {
        assert(a@.subrange(off as int, off + b@.len()) =~= b@);
    }
    true
}

/// Executable probe matcher; returns the cut position of `probe_cut`.
pub fn find_probe_cut(path: &Vec<char>, suffix: &Vec<char>, allow_c: bool) -> (r: Option<usize>)
    ensures
        match r {
            Some(p) => probe_cut(path@, suffix@, allow_c) == Some(p as int),
            None => probe_cut(path@, suffix@, allow_c) is None,
        },
{
    if path.len() < suffix.len() {
        return None;
    }
    let e = path.len() - suffix.len();
    if !chars_window_eq(path, e, suffix) {
        proof {
            assert(path@.subrange(path@.len() - suffix@.len(), path@.len() as int) == path@.subrange(
                e as int,
                e + suffix@.len(),
            ));
        }
        return None;
    }
    proof {
        assert(path@.subrange(path@.len() - suffix@.len(), path@.len() as int) == path@.subrange(
            e as int,
            e + suffix@.len(),
        ));
        assert(ends_with(path@, suffix@));
    }
    // count the digit run ending at e, stopping once it is too long anyway
    let mut c: usize = 0;
    while c < e && c <= 32 && digit_char(path[e - 1 - c])
        invariant
            0 <= c <= e,
            e <= path@.len(),
            c <= 33,
            all_digits(path@.subrange(e - c, e as int)),
        decreases e - c,
    {
        proof {
            let w = path@.subrange(e - (c + 1), e as int);
            let w0 = path@.subrange(e - c, e as int);
            assert forall|i: int| 0 <= i < w.len() implies is_digit(#[trigger] w[i]) by {
                if i == 0 {
                    assert(w[0] == path@[e - 1 - c]);
                } else {
                    assert(w[i] == w0[i - 1]);
                }
            }
        }
        c += 1;
    }
    proof {
        if c <= 32 {
            // the loop stopped at the string start or at a non-digit
            lemma_digit_run_exact(path@, e as int, c as int);
        } else {
            lemma_digit_run_bounds(path@, e as int);
            if digit_run(path@, e as int) <= 32 {
                let d = digit_run(path@, e as int);
                let w = path@.subrange(e - c, e as int);
                assert(is_digit(path@[e - 1 - d])) by {
                    assert(w[c - 1 - d] == path@[e - 1 - d]);
                }
            }
        }
    }
    if c < 16 || c > 32 {
        return None;
    }
    if c >= e {
        return None;
    }
    let p = e - c - 1;
    if path[p] == '/' {
        Some(p)
    } else if allow_c && path[p] == 'c' && p > 0 && path[p - 1] == '/' {
        Some(p - 1)
    } else {
        None
    }
}

/// A user-root probe: a top-level `<name>/user.json` entry, the name
/// non-empty and without further separators.
pub open spec fn is_user_probe(s: Seq<char>) -> bool {
    &&& ends_with(s, "/user.json"@)
    &&& s.len() > "/user.json"@.len()
    &&& forall|i: int|
        0 <= i < s.len() - "/user.json"@.len() ==> #[trigger] s[i] != '/'
}

/// Executable user-probe matcher; returns the length of the root name.
pub fn find_user_probe(path: &Vec<char>, suffix: &Vec<char>) -> (r: Option<usize>)
    requires
        suffix@ == "/user.json"@,
    ensures
        match r {
            Some(p) => is_user_probe(path@) && p == path@.len() - suffix@.len(),
            None => !is_user_probe(path@),
        },
{
    proof {
        reveal_strlit("/user.json");
    }
    if path.len() <= suffix.len() {
        return None;
    }
    let e = path.len() - suffix.len();
    if !chars_window_eq(path, e, suffix) {
        proof {
            assert(path@.subrange(path@.len() - suffix@.len(), path@.len() as int) == path@.subrange(
                e as int,
                e + suffix@.len(),
            ));
        }
        return None;
    }
    proof {
        assert(path@.subrange(path@.len() - suffix@.len(), path@.len() as int) == path@.subrange(
            e as int,
            e + suffix@.len(),
        ));
    }
    let mut i: usize = 0;
    while i < e
        invariant
            i <= e,
            e == path@.len() - suffix@.len(),
            e < path@.len(),
            suffix@ == "/user.json"@,
            ends_with(path@, "/user.json"@),
            forall|j: int| 0 <= j < i ==> #[trigger] path@[j] != '/',
        decreases e - i,
    {
        if path[i] == '/' {
            return None;
        }
        i += 1;
    }
    Some(e)
}

/// A channel directory entry under the message root: the name ends in a
/// separator preceded by at least 16 digits; the id is the last 32 of
/// them at most.
pub open spec fn channel_dir_id(s: Seq<char>) -> Option<Seq<char>> {
    if s.len() > 0 && s.last() == '/' {
        let k = digit_run(s, s.len() - 1);
        if k >= 16 {
            let d = if k > 32 { 32int } else { k };
            Some(s.subrange(s.len() - 1 - d, s.len() - 1))
        } else {
            None
        }
    } else {
        None
    }
}

/// Executable channel-directory matcher; returns the id digits.
pub fn find_channel_dir_id(path: &Vec<char>) -> (r: Option<Vec<char>>)
    ensures
        match r {
            Some(id) => channel_dir_id(path@) == Some(id@),
            None => channel_dir_id(path@) is None,
        },
{
    if path.len() == 0 || path[path.len() - 1] != '/' {
        return None;
    }
    let e = path.len() - 1;
    let mut c: usize = 0;
    while c < e && c < 32 && digit_char(path[e - 1 - c])
        invariant
            0 <= c <= e,
            e == path@.len() - 1,
            c <= 32,
            all_digits(path@.subrange(e - c, e as int)),
        decreases e - c,
    {
        proof {
            let w = path@.subrange(e - (c + 1), e as int);
            let w0 = path@.subrange(e - c, e as int);
            assert forall|i: int| 0 <= i < w.len() implies is_digit(#[trigger] w[i]) by {
                if i == 0 {
                    assert(w[0] == path@[e - 1 - c]);
                } else {
                    assert(w[i] == w0[i - 1]);
                }
            }
        }
        c += 1;
    }
    proof {
        let k = digit_run(path@, e as int);
        lemma_digit_run_bounds(path@, e as int);
        if c < 32 {
            // stopped at the start or at a non-digit: the run is exactly c
            lemma_digit_run_exact(path@, e as int, c as int);
        } else {
            // 32 digits seen: the run is at least 32
            if k < 32 {
                let w = path@.subrange(e - c, e as int);
                assert(is_digit(path@[e - 1 - k])) by {
                    assert(w[c - 1 - k] == path@[e - 1 - k]);
                }
            }
        }
    }
    if c < 16 {
        return None;
    }
    let mut id: Vec<char> = Vec::new();
    let mut i: usize = e - c;
    while i < e
        invariant
            e - c <= i <= e,
            e < path@.len(),
            c <= e,
            id@ == path@.subrange(e - c, i as int),
        decreases e - i,
    {
        id.push(path[i]);
        proof {
            assert(id@ =~= path@.subrange(e - c, i + 1));
        }
        i += 1;
    }
    proof {
        assert(id@ =~= path@.subrange(e - c, e as int));
    }
    Some(id)
}

/// An analytics events file: `analytics/events-` followed by a 4-digit
/// group, a 5-digit group, `-of-`, a second 5-digit group and `.json`,
/// at the end of the entry name.
pub open spec fn is_analytics_path(s: Seq<char>) -> bool {
    let w = s.subrange(s.len() - 41, s.len() as int);
    &&& s.len() >= 41
    &&& w.subrange(0, 17) == "analytics/events-"@
    &&& all_digits(w.subrange(17, 21))
    &&& w[21] == '-'
    &&& all_digits(w.subrange(22, 27))
    &&& w.subrange(27, 31) == "-of-"@
    &&& all_digits(w.subrange(31, 36))
    &&& w.subrange(36, 41) == ".json"@
}

/// Executable analytics matcher.
pub fn is_analytics_file(path: &Vec<char>, head: &Vec<char>, mid: &Vec<char>, tail: &Vec<char>) -> (r:
    bool)
    requires
        head@ == "analytics/events-"@,
        mid@ == "-of-"@,
        tail@ == ".json"@,
    ensures
        r == is_analytics_path(path@),
{
    proof {
        reveal_strlit("analytics/events-");
        reveal_strlit("-of-");
        reveal_strlit(".json");
    }
    if path.len() < 41 {
        return false;
    }
    let n = path.len();
    let b = path.len() - 41;
    let ghost w = path@.subrange(path@.len() - 41, path@.len() as int);
    if !chars_window_eq(path, b, head) {
        proof {
            assert(w.subrange(0, 17) =~= path@.subrange(b as int, b + 17));
        }
        return false;
    }
    if !chars_window_eq(path, b + 27, mid) {
        proof {
            assert(w.subrange(27, 31) =~= path@.subrange(b + 27, b + 31));
        }
        return false;
    }
    if !chars_window_eq(path, b + 36, tail) {
        proof {
            assert(w.subrange(36, 41) =~= path@.subrange(b + 36, b + 41));
        }
        return false;
    }
    if path[b + 21] != '-' {
        proof {
            assert(w[21] == path@[b + 21]);
        }
        return false;
    }
    let mut i: usize = 0;
    while i < 4
        invariant
            i <= 4,
            b + 41 == path@.len(),
            path@.len() == n,
            w == path@.subrange(path@.len() - 41, path@.len() as int),
            forall|j: int| 0 <= j < i ==> is_digit(#[trigger] path@[b + 17 + j]),
        decreases 4 - i,
    {
        proof {
            assert(w[17 + i] == path@[b + 17 + i]);
        }
        if !digit_char(path[b + 17 + i]) {
            proof {
                assert(w.subrange(17, 21)[i as int] == w[17 + i]);
            }
            return false;
        }
        i += 1;
    }
    let mut i2: usize = 0;
    while i2 < 5
        invariant
            i2 <= 5,
            b + 41 == path@.len(),
            path@.len() == n,
            w == path@.subrange(path@.len() - 41, path@.len() as int),
            forall|j: int| 0 <= j < i2 ==> is_digit(#[trigger] path@[b + 22 + j]),
        decreases 5 - i2,
    {
        proof {
            assert(w[22 + i2] == path@[b + 22 + i2]);
        }
        if !digit_char(path[b + 22 + i2]) {
            proof {
                assert(w.subrange(22, 27)[i2 as int] == w[22 + i2]);
            }
            return false;
        }
        i2 += 1;
    }
    let mut i3: usize = 0;
    while i3 < 5
        invariant
            i3 <= 5,
            b + 41 == path@.len(),
            path@.len() == n,
            w == path@.subrange(path@.len() - 41, path@.len() as int),
            forall|j: int| 0 <= j < i3 ==> is_digit(#[trigger] path@[b + 31 + j]),
        decreases 5 - i3,
    {
        proof {
            assert(w[31 + i3] == path@[b + 31 + i3]);
        }
        if !digit_char(path[b + 31 + i3]) {
            proof {
                assert(w.subrange(31, 36)[i3 as int] == w[31 + i3]);
            }
            return false;
        }
        i3 += 1;
    }
    proof {
        assert(w.subrange(0, 17) =~= path@.subrange(b as int, b + 17));
        assert(w.subrange(27, 31) =~= path@.subrange(b + 27, b + 31));
        assert(w.subrange(36, 41) =~= path@.subrange(b + 36, b + 41));
        assert(w[21] == path@[b + 21]);
        assert forall|j: int| 0 <= j < 4 implies is_digit(#[trigger] w.subrange(17, 21)[j]) by {
            assert(w.subrange(17, 21)[j] == path@[b + 17 + j]);
        }
        assert forall|j: int| 0 <= j < 5 implies is_digit(#[trigger] w.subrange(22, 27)[j]) by {
            assert(w.subrange(22, 27)[j] == path@[b + 22 + j]);
        }
        assert forall|j: int| 0 <= j < 5 implies is_digit(#[trigger] w.subrange(31, 36)[j]) by {
            assert(w.subrange(31, 36)[j] == path@[b + 31 + j]);
        }
    }
    true
}

} // verus!
