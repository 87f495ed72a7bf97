//! Parsing maps URLs: coordinates and the panorama identifier.
//!
//! A maps URL names its coordinate either as `@LAT,LON` or as
//! `!3dLAT!4dLON`, where each number is an optional minus sign, digits, and
//! optionally a dot and more digits; the number is read greedily. The `@`
//! form wins when both occur; within one form the leftmost occurrence wins.
//! A panorama identifier, when present, follows the leftmost `!1s` as a run
//! of word characters. Coordinates are handed out as their decimal text,
//! exactly as they stand in the URL.

use vstd::prelude::*;
use vstd::std_specs::iter::IteratorSpec;

use crate::error::{StreetViewError, SvResult};
use crate::urls::push_char;

verus! {

pub open spec fn is_digit(c: char) -> bool {
    '0' <= c <= '9'
}

/// A character a panorama identifier may hold.
pub open spec fn is_word_char(c: char) -> bool {
    ('a' <= c <= 'z') || ('A' <= c <= 'Z') || is_digit(c) || c == '_' || c == '-'
}

/// First position at or after `i` that does not hold a digit.
pub open spec fn digit_run_end(s: Seq<char>, i: int) -> int
    recommends
        0 <= i <= s.len(),
    decreases s.len() - i
        when 0 <= i <= s.len()
{
    if i >= s.len() || !is_digit(s[i]) {
        i
    } else {
        digit_run_end(s, i + 1)
    }
}

/// First position at or after `i` that does not hold a word character.
pub open spec fn word_run_end(s: Seq<char>, i: int) -> int
    recommends
        0 <= i <= s.len(),
    decreases s.len() - i
        when 0 <= i <= s.len()
{
    if i >= s.len() || !is_word_char(s[i]) {
        i
    } else {
        word_run_end(s, i + 1)
    }
}

/// Where a coordinate number starting at `i` ends, read greedily: an
/// optional minus sign, at least one digit, then optionally a dot and any
/// further digits. `None` when no number starts at `i`.
pub open spec fn coord_num_end(s: Seq<char>, i: int) -> Option<int>
    recommends
        0 <= i <= s.len(),
{
    let p = if i < s.len() && s[i] == '-' {
        i + 1
    } else {
        i
    };
    if p < s.len() && is_digit(s[p]) {
        let e1 = digit_run_end(s, p);
        if e1 < s.len() && s[e1] == '.' {
            Some(digit_run_end(s, e1 + 1))
        } else {
            Some(e1)
        }
    } else {
        None
    }
}

/// The `@LAT,LON` form anchored at the `@` in position `i`: the end of the
/// latitude (where the comma must sit) and the end of the longitude.
pub open spec fn at_match(s: Seq<char>, i: int) -> Option<(int, int)>
    recommends
        0 <= i < s.len(),
{
    match coord_num_end(s, i + 1) {
        Some(e1) => {
            if e1 < s.len() && s[e1] == ',' {
                match coord_num_end(s, e1 + 1) {
                    Some(e2) => Some((e1, e2)),
                    None => None,
                }
            } else {
                None
            }
        },
        None => None,
    }
}

/// The leftmost `@LAT,LON` match at or after `i`: its position and the two
/// number ends.
pub open spec fn first_at_match(s: Seq<char>, i: int) -> Option<(int, int, int)>
    recommends
        0 <= i,
    decreases s.len() - i
        when 0 <= i <= s.len()
{
    if i >= s.len() {
        None
    } else if s[i] == '@' && at_match(s, i) is Some {
        Some((i, at_match(s, i)->Some_0.0, at_match(s, i)->Some_0.1))
    } else {
        first_at_match(s, i + 1)
    }
}

/// Whether `!3d` sits at position `i`.
pub open spec fn bang3d_at(s: Seq<char>, i: int) -> bool {
    i + 3 <= s.len() && s[i] == '!' && s[i + 1] == '3' && s[i + 2] == 'd'
}

/// The `!3dLAT!4dLON` form anchored at the `!3d` in position `i`: the end
/// of the latitude (where `!4d` must sit) and the end of the longitude.
pub open spec fn bang_match(s: Seq<char>, i: int) -> Option<(int, int)>
    recommends
        bang3d_at(s, i),
{
    match coord_num_end(s, i + 3) {
        Some(e1) => {
            if e1 + 3 <= s.len() && s[e1] == '!' && s[e1 + 1] == '4' && s[e1 + 2] == 'd' {
                match coord_num_end(s, e1 + 3) {
                    Some(e2) => Some((e1, e2)),
                    None => None,
                }
            } else {
                None
            }
        },
        None => None,
    }
}

/// The leftmost `!3dLAT!4dLON` match at or after `i`.
pub open spec fn first_bang_match(s: Seq<char>, i: int) -> Option<(int, int, int)>
    recommends
        0 <= i,
    decreases s.len() - i
        when 0 <= i <= s.len()
{
    if i >= s.len() {
        None
    } else if bang3d_at(s, i) && bang_match(s, i) is Some {
        Some((i, bang_match(s, i)->Some_0.0, bang_match(s, i)->Some_0.1))
    } else {
        first_bang_match(s, i + 1)
    }
}

/// Whether `!1s` followed by a word character sits at position `i`.
pub open spec fn pano_id_at(s: Seq<char>, i: int) -> bool {
    i + 4 <= s.len() && s[i] == '!' && s[i + 1] == '1' && s[i + 2] == 's' && is_word_char(
        s[i + 3],
    )
}

/// The leftmost panorama identifier: the position of its `!1s` and the end
/// of the identifier's greedy word-character run.
pub open spec fn first_pano_match(s: Seq<char>, i: int) -> Option<(int, int)>
    recommends
        0 <= i,
    decreases s.len() - i
        when 0 <= i <= s.len()
{
    if i >= s.len() {
        None
    } else if pano_id_at(s, i) {
        Some((i, word_run_end(s, i + 3)))
    } else {
        first_pano_match(s, i + 1)
    }
}

/// The coordinate texts a maps URL yields: from the leftmost `@LAT,LON`,
/// or, when there is none, from the leftmost `!3dLAT!4dLON`.
pub open spec fn parse_url_coords(s: Seq<char>) -> Option<(Seq<char>, Seq<char>)> {
    match first_at_match(s, 0) {
        Some((p, e1, e2)) => Some((s.subrange(p + 1, e1), s.subrange(e1 + 1, e2))),
        None => match first_bang_match(s, 0) {
            Some((p, e1, e2)) => Some((s.subrange(p + 3, e1), s.subrange(e1 + 3, e2))),
            None => None,
        },
    }
}

/// The panorama identifier a maps URL yields, when it names one.
pub open spec fn parse_url_pano(s: Seq<char>) -> Option<Seq<char>> {
    match first_pano_match(s, 0) {
        Some((p, e)) => Some(s.subrange(p + 3, e)),
        None => None,
    }
}

/// Collect the characters of a string.
fn str_chars(s: &str) -> (v: Vec<char>)
    ensures
        v@ == s@,
{
    broadcast use vstd::string::axiom_spec_iter, vstd::string::next_postcondition;

    let mut it = s.chars();
    let mut v: Vec<char> = Vec::new();
    loop
        invariant
            it.obeys_prophetic_iter_laws(),
            it.decrease() is Some,
            v@ + it.remaining() == s@,
        ensures
            v@ == s@,
        decreases it.decrease()->0,
    {
        match it.next() {
            Some(c) => {
                v.push(c);
                proof {
                    assert(v@ + it.remaining() =~= s@);
                }
            },
            None => {
                proof {
                    assert(v@ + it.remaining() =~= v@);
                }
                break ;
            },
        }
    }
    v
}

/// Copy the characters of `[start, end)` into a fresh string.
fn chars_to_string(v: &Vec<char>, start: usize, end: usize) -> (s: String)
    requires
        start <= end <= v@.len(),
    ensures
        s@ == v@.subrange(start as int, end as int),
{
    let mut s = String::new();
    let mut i: usize = start;
    while i < end
        invariant
            start <= i <= end <= v@.len(),
            s@ == v@.subrange(start as int, i as int),
        decreases end - i,
    {
        push_char(&mut s, v[i]);
        proof {
            assert(s@ =~= v@.subrange(start as int, (i + 1) as int));
        }
        i = i + 1;
    }
    s
}

fn digit_run_end_exec(v: &Vec<char>, i: usize) -> (e: usize)
    requires
        i <= v@.len(),
    ensures
        e == digit_run_end(v@, i as int),
        i <= e <= v@.len(),
{
    let n = v.len();
    let mut j: usize = i;
    while j < n && '0' <= v[j] && v[j] <= '9'
        invariant
            i <= j <= n,
            n == v@.len(),
            digit_run_end(v@, i as int) == digit_run_end(v@, j as int),
        decreases n - j,
    {
        j = j + 1;
    }
    j
}

fn word_run_end_exec(v: &Vec<char>, i: usize) -> (e: usize)
    requires
        i <= v@.len(),
    ensures
        e == word_run_end(v@, i as int),
        i <= e <= v@.len(),
{
    let n = v.len();
    let mut j: usize = i;
    while j < n && (('a' <= v[j] && v[j] <= 'z') || ('A' <= v[j] && v[j] <= 'Z') || ('0' <= v[j]
        && v[j] <= '9') || v[j] == '_' || v[j] == '-')
        invariant
            i <= j <= n,
            n == v@.len(),
            word_run_end(v@, i as int) == word_run_end(v@, j as int),
        decreases n - j,
    {
        j = j + 1;
    }
    j
}

fn coord_num_end_exec(v: &Vec<char>, i: usize) -> (r: Option<usize>)
    requires
        i <= v@.len(),
    ensures
        match r {
            Some(e) => coord_num_end(v@, i as int) == Some(e as int) && i <= e <= v@.len(),
            None => coord_num_end(v@, i as int) is None,
        },
{
    let n = v.len();
    let p: usize = if i < n && v[i] == '-' {
        i + 1
    } else {
        i
    };
    if p < n && '0' <= v[p] && v[p] <= '9' {
        let e1 = digit_run_end_exec(v, p);
        if e1 < n && v[e1] == '.' {
            Some(digit_run_end_exec(v, e1 + 1))
        } else {
            Some(e1)
        }
    } else {
        None
    }
}

fn at_match_exec(v: &Vec<char>, i: usize) -> (r: Option<(usize, usize)>)
    requires
        i < v@.len(),
    ensures
        match r {
            Some((e1, e2)) => at_match(v@, i as int) == Some((e1 as int, e2 as int)) && i < e1
                <= v@.len() && e1 < e2 <= v@.len(),
            None => at_match(v@, i as int) is None,
        },
{
    let n = v.len();
    match coord_num_end_exec(v, i + 1) {
        Some(e1) => {
            if e1 < n && v[e1] == ',' {
                match coord_num_end_exec(v, e1 + 1) {
                    Some(e2) => Some((e1, e2)),
                    None => None,
                }
            } else {
                None
            }
        },
        None => None,
    }
}

fn bang_match_exec(v: &Vec<char>, i: usize) -> (r: Option<(usize, usize)>)
    requires
        i + 3 <= v@.len(),
        bang3d_at(v@, i as int),
    ensures
        match r {
            Some((e1, e2)) => bang_match(v@, i as int) == Some((e1 as int, e2 as int)) && i + 3
                <= e1 <= v@.len() && e1 + 3 <= e2 <= v@.len(),
            None => bang_match(v@, i as int) is None,
        },
{
    let n = v.len();
    match coord_num_end_exec(v, i + 3) {
        Some(e1) => {
            if n >= 3 && e1 <= n - 3 && v[e1] == '!' && v[e1 + 1] == '4' && v[e1 + 2] == 'd' {
                match coord_num_end_exec(v, e1 + 3) {
                    Some(e2) => Some((e1, e2)),
                    None => None,
                }
            } else {
                None
            }
        },
        None => None,
    }
}

fn find_at_match(v: &Vec<char>) -> (r: Option<(usize, usize, usize)>)
    ensures
        match r {
            Some((p, e1, e2)) => first_at_match(v@, 0) == Some((p as int, e1 as int, e2 as int))
                && p < e1 <= v@.len() && e1 < e2 <= v@.len(),
            None => first_at_match(v@, 0) is None,
        },
{
    let n = v.len();
    let mut i: usize = 0;
    while i < n
        invariant
            i <= n,
            n == v@.len(),
            first_at_match(v@, 0) == first_at_match(v@, i as int),
        decreases n - i,
    {
        if v[i] == '@' {
            match at_match_exec(v, i) {
                Some((e1, e2)) => {
                    return Some((i, e1, e2));
                },
                None => {},
            }
        }
        i = i + 1;
    }
    None
}

fn find_bang_match(v: &Vec<char>) -> (r: Option<(usize, usize, usize)>)
    ensures
        match r {
            Some((p, e1, e2)) => first_bang_match(v@, 0) == Some((p as int, e1 as int, e2 as int))
                && p + 3 <= e1 <= v@.len() && e1 + 3 <= e2 <= v@.len(),
            None => first_bang_match(v@, 0) is None,
        },
{
    let n = v.len();
    let mut i: usize = 0;
    while i < n
        invariant
            i <= n,
            n == v@.len(),
            first_bang_match(v@, 0) == first_bang_match(v@, i as int),
        decreases n - i,
    {
        if n >= 3 && i <= n - 3 && v[i] == '!' && v[i + 1] == '3' && v[i + 2] == 'd' {
            match bang_match_exec(v, i) {
                Some((e1, e2)) => {
                    return Some((i, e1, e2));
                },
                None => {},
            }
        }
        i = i + 1;
    }
    None
}

fn find_pano_match(v: &Vec<char>) -> (r: Option<(usize, usize)>)
    ensures
        match r {
            Some((p, e)) => first_pano_match(v@, 0) == Some((p as int, e as int)) && p + 3 <= e
                <= v@.len(),
            None => first_pano_match(v@, 0) is None,
        },
{
    let n = v.len();
    let mut i: usize = 0;
    while i < n
        invariant
            i <= n,
            n == v@.len(),
            first_pano_match(v@, 0) == first_pano_match(v@, i as int),
        decreases n - i,
    {
        if n >= 4 && i <= n - 4 && v[i] == '!' && v[i + 1] == '1' && v[i + 2] == 's' && (('a' <= v[i + 3]
            && v[i + 3] <= 'z') || ('A' <= v[i + 3] && v[i + 3] <= 'Z') || ('0' <= v[i + 3] && v[i
            + 3] <= '9') || v[i + 3] == '_' || v[i + 3] == '-') {
            let e = word_run_end_exec(v, i + 3);
            return Some((i, e));
        }
        i = i + 1;
    }
    None
}

/// Parse a maps URL into the latitude and longitude texts and, when it
/// names one, the panorama identifier. A URL without a recognisable
/// coordinate in either form is rejected as `InvalidUrl`.
pub fn parse_url(url: &str) -> (r: SvResult<(String, String, Option<String>)>)
    ensures
        match r {
            Ok(out) => {
                &&& parse_url_coords(url@) == Some((out.0@, out.1@))
                &&& match out.2 {
                    Some(p) => parse_url_pano(url@) == Some(p@),
                    None => parse_url_pano(url@) is None,
                }
            },
            Err(e) => parse_url_coords(url@) is None && e is InvalidUrl,
        },
{
    let v = str_chars(url);
    let coords: Option<(usize, usize, usize, usize)> = match find_at_match(&v) {
        Some((p, e1, e2)) => Some((p + 1, e1, e1 + 1, e2)),
        None => match find_bang_match(&v) {
            Some((p, e1, e2)) => Some((p + 3, e1, e1 + 3, e2)),
            None => None,
        },
    };
    match coords {
        Some((lat_start, lat_end, lon_start, lon_end)) => {
            let lat = chars_to_string(&v, lat_start, lat_end);
            let lon = chars_to_string(&v, lon_start, lon_end);
            let pano: Option<String> = match find_pano_match(&v) {
                Some((p, e)) => Some(chars_to_string(&v, p + 3, e)),
                None => None,
            };
            Ok((lat, lon, pano))
        },
        None => Err(StreetViewError::InvalidUrl),
    }
}

/// Which panorama a URL-based search settles on: the first whose identifier
/// equals the target from the URL, or, with no target, the first of the
/// list; `None` when nothing qualifies.
pub fn find_panorama_index(ids: &Vec<String>, target: &Option<String>) -> (r: Option<usize>)
    ensures
        match target {
            Some(t) => match r {
                Some(i) => 0 <= i < ids@.len() && ids@[i as int]@ == t@ && (forall|j: int|
                    0 <= j < i ==> (#[trigger] ids@[j])@ != t@),
                None => forall|j: int| 0 <= j < ids@.len() ==> (#[trigger] ids@[j])@ != t@,
            },
            None => r == if ids@.len() == 0 {
                Option::<usize>::None
            } else {
                Some(0usize)
            },
        },
{
    match target {
        Some(t) => {
            let n = ids.len();
            let mut i: usize = 0;
            while i < n
                invariant
                    *target == Some(*t),
                    i <= n,
                    n == ids@.len(),
                    forall|j: int| 0 <= j < i ==> (#[trigger] ids@[j])@ != t@,
                decreases n - i,
            {
                if ids[i].eq(t) {
                    return Some(i);
                }
                i = i + 1;
            }
            None
        },
        None => {
            if ids.len() == 0 {
                None
            } else {
                Some(0)
            }
        },
    }
}

} // verus!
