//! Byte-string helpers: substring search and the fence-stripping rule used
//! when copying fenced code blocks to the clipboard.
//!
//! Source text and rendered text are byte strings throughout this crate; all
//! offsets are byte offsets.

use vstd::prelude::*;

verus! {

/// The backtick byte that delimits fenced code blocks.
pub const BACKTICK: u8 = 0x60;

/// The newline byte.
pub const NEWLINE: u8 = 0x0a;

/// The space byte, the word separator for word-range expansion.
pub const SPACE: u8 = 0x20;

/// True when a triple-backtick fence starts at byte `i` of `s`.
pub open spec fn fence_at(s: Seq<u8>, i: int) -> bool {
    &&& 0 <= i
    &&& i + 3 <= s.len()
    &&& s[i] == BACKTICK
    &&& s[i + 1] == BACKTICK
    &&& s[i + 2] == BACKTICK
}

/// The first index at or after `from` where a fence starts, if any.
pub open spec fn first_fence_from(s: Seq<u8>, from: int) -> Option<int>
    decreases s.len() - from when 0 <= from
{
    if from + 3 > s.len() {
        None
    } else if fence_at(s, from) {
        Some(from)
    } else {
        first_fence_from(s, from + 1)
    }
}

/// The last index at which a fence starts, if any.
pub open spec fn last_fence(s: Seq<u8>) -> Option<int>
    decreases s.len()
{
    if s.len() < 3 {
        None
    } else if fence_at(s, s.len() - 3) {
        Some(s.len() - 3)
    } else {
        last_fence(s.take(s.len() - 1))
    }
}

/// The first index at or after `from` holding byte `b`, if any.
pub open spec fn first_byte_from(s: Seq<u8>, from: int, b: u8) -> Option<int>
    decreases s.len() - from when 0 <= from
{
    if from >= s.len() {
        None
    } else if s[from] == b {
        Some(from)
    } else {
        first_byte_from(s, from + 1, b)
    }
}

/// Returns the first fence position in `s` at or after `from`.
pub fn find_fence(s: &Vec<u8>, from: usize) -> (r: Option<usize>)
    ensures
        r matches Some(i) ==> first_fence_from(s@, from as int) == Some(i as int),
        r is None ==> first_fence_from(s@, from as int) is None,
{
    let mut i: usize = from;
    loop
        invariant
            from <= i,
            first_fence_from(s@, from as int) == first_fence_from(s@, i as int),
        decreases s@.len() + 3 - i,
    {
        if s.len() < 3 || i > s.len() - 3 {
            return None;
        }
        if s[i] == BACKTICK && s[i + 1] == BACKTICK && s[i + 2] == BACKTICK {
            return Some(i);
        }
        i = i + 1;
    }
}

/// Returns the last fence position in `s`, if any.
pub fn rfind_fence(s: &Vec<u8>) -> (r: Option<usize>)
    ensures
        r matches Some(i) ==> last_fence(s@) == Some(i as int),
        r is None ==> last_fence(s@) is None,
{
    let mut n: usize = s.len();
    proof {
        assert(s@.take(s@.len() as int) =~= s@);
    }
    loop
        invariant
            n <= s.len(),
            last_fence(s@) == last_fence(s@.take(n as int)),
        decreases n,
    {
        if n < 3 {
            return None;
        }
        if s[n - 3] == BACKTICK && s[n - 2] == BACKTICK && s[n - 1] == BACKTICK {
            proof {
                assert(s@.take(n as int)[n - 3] == s@[n - 3]);
                assert(s@.take(n as int)[n - 2] == s@[n - 2]);
                assert(s@.take(n as int)[n - 1] == s@[n - 1]);
            }
            return Some(n - 3);
        }
        proof {
            assert(s@.take(n as int).take(n - 1) =~= s@.take(n - 1));
        }
        n = n - 1;
    }
}

/// Returns the first position of byte `b` in `s` at or after `from`.
pub fn find_byte(s: &Vec<u8>, from: usize, b: u8) -> (r: Option<usize>)
    ensures
        r matches Some(i) ==> first_byte_from(s@, from as int, b) == Some(i as int),
        r is None ==> first_byte_from(s@, from as int, b) is None,
{
    let mut i: usize = from;
    loop
        invariant
            from <= i,
            first_byte_from(s@, from as int, b) == first_byte_from(s@, i as int, b),
        decreases s@.len() + 1 - i,
    {
        if i >= s.len() {
            return None;
        }
        if s[i] == b {
            return Some(i);
        }
        i = i + 1;
    }
}

/// The last index strictly before `end` holding byte `b`, if any.
pub open spec fn last_byte_before(s: Seq<u8>, end: int, b: u8) -> Option<int>
    decreases end when end <= s.len()
{
    if end <= 0 {
        None
    } else if s[end - 1] == b {
        Some(end - 1)
    } else {
        last_byte_before(s, end - 1, b)
    }
}

/// Returns the last position of byte `b` in `s` strictly before `end`.
pub fn rfind_byte(s: &Vec<u8>, end: usize, b: u8) -> (r: Option<usize>)
    requires
        end <= s@.len(),
    ensures
        r matches Some(i) ==> last_byte_before(s@, end as int, b) == Some(i as int),
        r is None ==> last_byte_before(s@, end as int, b) is None,
{
    let mut n: usize = end;
    loop
        invariant
            n <= end <= s@.len(),
            last_byte_before(s@, end as int, b) == last_byte_before(s@, n as int, b),
        decreases n,
    {
        if n == 0 {
            return None;
        }
        if s[n - 1] == b {
            return Some(n - 1);
        }
        n = n - 1;
    }
}

/// A byte found by the backward search lies before the bound.
pub proof fn lemma_last_byte_in_range(s: Seq<u8>, end: int, i: int, b: u8)
    requires
        end <= s.len(),
        last_byte_before(s, end, b) == Some(i),
    ensures
        0 <= i < end,
        s[i] == b,
    decreases end,
{
    if end <= 0 {
    } else if s[end - 1] == b {
    } else {
        lemma_last_byte_in_range(s, end - 1, i, b);
    }
}

/// Copies the byte range `start..end` of `s` into a fresh vector.
pub fn subvec(s: &Vec<u8>, start: usize, end: usize) -> (r: Vec<u8>)
    requires
        start <= end <= s@.len(),
    ensures
        r@ == s@.subrange(start as int, end as int),
{
    let mut r: Vec<u8> = Vec::new();
    let mut i: usize = start;
    while i < end
        invariant
            start <= i <= end <= s@.len(),
            r@ == s@.subrange(start as int, i as int),
        decreases end - i,
    {
        r.push(s[i]);
        proof {
            assert(r@ =~= s@.subrange(start as int, i + 1));
        }
        i = i + 1;
    }
    r
}

/// The fence-stripping rule: drop everything up to and including the line
/// that opens the first fence, then drop the final fence and everything
/// after it.  Input with no fence comes back unchanged.
pub open spec fn without_fences_spec(s: Seq<u8>) -> Seq<u8> {
    let t = match first_fence_from(s, 0) {
        Some(i) => {
            let u = s.subrange(i, s.len() as int);
            match first_byte_from(u, 0, NEWLINE) {
                Some(j) => u.subrange(j + 1, u.len() as int),
                None => u,
            }
        },
        None => s,
    };
    match last_fence(t) {
        Some(k) => t.subrange(0, k),
        None => t,
    }
}

/// Strips a fenced code block's backtick fences and the language annotation
/// on the opening fence; text without fences is returned unchanged.  Used
/// when copying a code block's contents to the clipboard.
pub fn without_fences(s: &Vec<u8>) -> (r: Vec<u8>)
    ensures
        r@ == without_fences_spec(s@),
{
    let ghost spec_t: Seq<u8> = match first_fence_from(s@, 0) {
        Some(i) => {
            let u = s@.subrange(i, s@.len() as int);
            match first_byte_from(u, 0, NEWLINE) {
                Some(j) => u.subrange(j + 1, u.len() as int),
                None => u,
            }
        },
        None => s@,
    };
    let mut start: usize = 0;
    if let Some(i) = find_fence(s, 0) {
        proof {
            lemma_first_fence_in_range(s@, 0, i as int);
        }
        start = i;
        let u = subvec(s, i, s.len());
        if let Some(j) = find_byte(&u, 0, NEWLINE) {
            proof {
                lemma_first_byte_in_range(u@, 0, j as int, NEWLINE);
                assert(s@.subrange(i + j + 1, s@.len() as int) =~= u@.subrange(
                    j + 1,
                    u@.len() as int,
                ));
            }
            start = i + j + 1;
        }
    } else {
        proof {
            assert(s@.subrange(0, s@.len() as int) =~= s@);
        }
    }
    let t = subvec(s, start, s.len());
    proof {
        assert(t@ == spec_t);
    }
    match rfind_fence(&t) {
        Some(k) => {
            proof {
                lemma_last_fence_in_range(t@, k as int);
            }
            subvec(&t, 0, k)
        },
        None => t,
    }
}

/// A fence found by the search lies within the string.
proof fn lemma_first_fence_in_range(s: Seq<u8>, from: int, i: int)
    requires
        0 <= from,
        first_fence_from(s, from) == Some(i),
    ensures
        from <= i,
        i + 3 <= s.len(),
        fence_at(s, i),
    decreases s.len() - from,
{
    if from + 3 > s.len() {
    } else if fence_at(s, from) {
    } else {
        lemma_first_fence_in_range(s, from + 1, i);
    }
}

/// A byte found by the search lies within the string.
pub proof fn lemma_first_byte_in_range(s: Seq<u8>, from: int, i: int, b: u8)
    requires
        0 <= from,
        first_byte_from(s, from, b) == Some(i),
    ensures
        from <= i < s.len(),
        s[i] == b,
    decreases s.len() - from,
{
    if from >= s.len() {
    } else if s[from] == b {
    } else {
        lemma_first_byte_in_range(s, from + 1, i, b);
    }
}

/// A fence found by the backward search lies within the string.
proof fn lemma_last_fence_in_range(s: Seq<u8>, i: int)
    requires
        last_fence(s) == Some(i),
    ensures
        0 <= i,
        i + 3 <= s.len(),
        fence_at(s, i),
    decreases s.len(),
{
    if s.len() < 3 {
    } else if fence_at(s, s.len() - 3) {
    } else {
        lemma_last_fence_in_range(s.take(s.len() - 1), i);
    }
}


/// ASCII whitespace, as trimmed around copied code blocks.
pub open spec fn is_ascii_ws(b: u8) -> bool {
    b == SPACE || b == NEWLINE || b == 0x0d || b == 0x09
}

/// The first index at or after `from` holding a non-whitespace byte.
pub open spec fn first_non_ws(s: Seq<u8>, from: int) -> Option<int>
    decreases s.len() - from when 0 <= from
{
    if from >= s.len() {
        None
    } else if !is_ascii_ws(s[from]) {
        Some(from)
    } else {
        first_non_ws(s, from + 1)
    }
}

/// The last index strictly before `end` holding a non-whitespace byte.
pub open spec fn last_non_ws(s: Seq<u8>, end: int) -> Option<int>
    decreases end when end <= s.len()
{
    if end <= 0 {
        None
    } else if !is_ascii_ws(s[end - 1]) {
        Some(end - 1)
    } else {
        last_non_ws(s, end - 1)
    }
}

/// The string with leading and trailing ASCII whitespace removed.
pub open spec fn trim_spec(s: Seq<u8>) -> Seq<u8> {
    match first_non_ws(s, 0) {
        Some(a) => match last_non_ws(s, s.len() as int) {
            Some(b) => s.subrange(a, b + 1),
            None => Seq::empty(),
        },
        None => Seq::empty(),
    }
}

/// Returns the first non-whitespace position at or after `from`.
pub fn find_non_ws(s: &Vec<u8>, from: usize) -> (r: Option<usize>)
    ensures
        r matches Some(i) ==> first_non_ws(s@, from as int) == Some(i as int),
        r is None ==> first_non_ws(s@, from as int) is None,
{
    let mut i: usize = from;
    loop
        invariant
            from <= i,
            first_non_ws(s@, from as int) == first_non_ws(s@, i as int),
        decreases s@.len() + 1 - i,
    {
        if i >= s.len() {
            return None;
        }
        let b = s[i];
        if !(b == SPACE || b == NEWLINE || b == 0x0d || b == 0x09) {
            return Some(i);
        }
        i = i + 1;
    }
}

/// Returns the last non-whitespace position in `s`.
pub fn rfind_non_ws(s: &Vec<u8>) -> (r: Option<usize>)
    ensures
        r matches Some(i) ==> last_non_ws(s@, s@.len() as int) == Some(i as int),
        r is None ==> last_non_ws(s@, s@.len() as int) is None,
{
    let mut n: usize = s.len();
    loop
        invariant
            n <= s@.len(),
            last_non_ws(s@, s@.len() as int) == last_non_ws(s@, n as int),
        decreases n,
    {
        if n == 0 {
            return None;
        }
        let b = s[n - 1];
        if !(b == SPACE || b == NEWLINE || b == 0x0d || b == 0x09) {
            return Some(n - 1);
        }
        n = n - 1;
    }
}

/// A non-whitespace byte below `end` puts the last non-whitespace index at
/// or above it.
proof fn lemma_last_non_ws_at_least(s: Seq<u8>, end: int, a: int)
    requires
        end <= s.len(),
        0 <= a < end,
        !is_ascii_ws(s[a]),
    ensures
        last_non_ws(s, end) matches Some(b) && b >= a,
    decreases end,
{
    if !is_ascii_ws(s[end - 1]) {
    } else {
        lemma_last_non_ws_at_least(s, end - 1, a);
    }
}

proof fn lemma_first_non_ws_in_range(s: Seq<u8>, from: int, i: int)
    requires
        0 <= from,
        first_non_ws(s, from) == Some(i),
    ensures
        from <= i < s.len(),
        !is_ascii_ws(s[i]),
    decreases s.len() - from,
{
    if from >= s.len() {
    } else if !is_ascii_ws(s[from]) {
    } else {
        lemma_first_non_ws_in_range(s, from + 1, i);
    }
}

proof fn lemma_last_non_ws_in_range(s: Seq<u8>, end: int, i: int)
    requires
        end <= s.len(),
        last_non_ws(s, end) == Some(i),
    ensures
        0 <= i < end,
    decreases end,
{
    if end <= 0 {
    } else if !is_ascii_ws(s[end - 1]) {
    } else {
        lemma_last_non_ws_in_range(s, end - 1, i);
    }
}

/// Trims leading and trailing ASCII whitespace.
pub fn trim_ascii(s: &Vec<u8>) -> (r: Vec<u8>)
    ensures
        r@ == trim_spec(s@),
{
    match find_non_ws(s, 0) {
        None => Vec::new(),
        Some(a) => {
            proof {
                lemma_first_non_ws_in_range(s@, 0, a as int);
            }
            match rfind_non_ws(s) {
                None => {
                    proof {
                        lemma_last_non_ws_at_least(s@, s@.len() as int, a as int);
                    }
                    Vec::new()
                },
                Some(b) => {
                    proof {
                        lemma_last_non_ws_at_least(s@, s@.len() as int, a as int);
                        lemma_last_non_ws_in_range(s@, s@.len() as int, b as int);
                    }
                    if b < s.len() {
                        subvec(s, a, b + 1)
                    } else {
                        proof {
                            assert(false);
                        }
                        Vec::new()
                    }
                },
            }
        },
    }
}

} // verus!
