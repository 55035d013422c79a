//! User-given names of workspaces and tabs: how a name is cleaned up before it is used, and
//! when two names count as the same.
//!
//! A name is trimmed of surrounding whitespace, must not be empty, may hold at most
//! [`MAX_NAME_CHARS`] characters and no control character. Names are compared without regard
//! to case.

use vstd::prelude::*;

use crate::name_editor::{chars_of, is_control, string_of, MAX_NAME_CHARS};

verus! {

/// Why a name was refused.
#[derive(Clone, Copy, Debug, PartialEq, Eq, Structural)]
pub enum NameError {
    /// Nothing is left once surrounding whitespace is removed.
    Empty,
    /// More than [`MAX_NAME_CHARS`] characters.
    TooLong,
    /// A control character.
    ControlCharacter,
}

/// The message shown for a refused name.
pub open spec fn name_error_message(e: NameError) -> Seq<char> {
    match e {
        NameError::Empty => "name must not be empty"@,
        NameError::TooLong => "name must be at most 128 characters"@,
        NameError::ControlCharacter => "name must not contain control characters"@,
    }
}

impl NameError {
    /// The message shown for the error.
    pub fn message(self) -> (r: &'static str)
        ensures
            r@ == name_error_message(self),
    {
        match self {
            NameError::Empty => "name must not be empty",
            NameError::TooLong => "name must be at most 128 characters",
            NameError::ControlCharacter => "name must not contain control characters",
        }
    }
}

/// Whether `c` has the Unicode `White_Space` property (as `char::is_whitespace` decides).
pub open spec fn is_white_space(c: char) -> bool {
    let v = c as u32;
    ||| 0x09 <= v <= 0x0d
    ||| v == 0x20
    ||| v == 0x85
    ||| v == 0xa0
    ||| v == 0x1680
    ||| 0x2000 <= v <= 0x200a
    ||| v == 0x2028
    ||| v == 0x2029
    ||| v == 0x202f
    ||| v == 0x205f
    ||| v == 0x3000
}

/// Whether `c` has the Unicode `White_Space` property.
pub fn char_is_white_space(c: char) -> (r: bool)
    ensures
        r == is_white_space(c),
{
    let v = c as u32;
    (0x09 <= v && v <= 0x0d) || v == 0x20 || v == 0x85 || v == 0xa0 || v == 0x1680 || (0x2000 <= v
        && v <= 0x200a) || v == 0x2028 || v == 0x2029 || v == 0x202f || v == 0x205f || v == 0x3000
}

/// `s` without its leading whitespace.
pub open spec fn trim_start(s: Seq<char>) -> Seq<char>
    decreases s.len(),
{
    if s.len() > 0 && is_white_space(s[0]) {
        trim_start(s.drop_first())
    } else {
        s
    }
}

/// `s` without its trailing whitespace.
pub open spec fn trim_end(s: Seq<char>) -> Seq<char>
    decreases s.len(),
{
    if s.len() > 0 && is_white_space(s.last()) {
        trim_end(s.drop_last())
    } else {
        s
    }
}

/// `s` without surrounding whitespace.
pub open spec fn trimmed(s: Seq<char>) -> Seq<char> {
    trim_end(trim_start(s))
}

/// What [`normalize_name`] makes of a name.
pub open spec fn normalized(s: Seq<char>) -> Result<Seq<char>, NameError> {
    let t = trimmed(s);
    if t.len() == 0 {
        Err(NameError::Empty)
    } else if t.len() > MAX_NAME_CHARS {
        Err(NameError::TooLong)
    } else if exists|k: int| 0 <= k < t.len() && #[trigger] is_control(t[k]) {
        Err(NameError::ControlCharacter)
    } else {
        Ok(t)
    }
}

/// The name a user gave, trimmed of surrounding whitespace; refused when nothing is left, when
/// it is longer than [`MAX_NAME_CHARS`] characters or when it holds a control character.
pub fn normalize_name(name: &str) -> (r: Result<String, NameError>)
    ensures
        match (r, normalized(name@)) {
            (Ok(s), Ok(t)) => s@ == t,
            (Err(e), Err(f)) => e == f,
            _ => false,
        },
{
    let chars = chars_of(name);
    let ghost s = chars@;
    let n = chars.len();
    let mut start: usize = 0;
    proof {
        assert(s.subrange(0, n as int) =~= s);
    }
    while start < n && char_is_white_space(chars[start])
        invariant
            start <= n == s.len(),
            chars@ == s,
            trim_start(s) == trim_start(s.subrange(start as int, n as int)),
        decreases n - start,
    {
        proof {
            let rest = s.subrange(start as int, n as int);
            assert(rest.drop_first() =~= s.subrange(start + 1, n as int));
        }
        start = start + 1;
    }
    proof {
        let rest = s.subrange(start as int, n as int);
        if start == n {
            assert(rest.len() == 0);
        }
        assert(trim_start(rest) == rest);
    }
    let mut end: usize = n;
    while end > start && char_is_white_space(chars[end - 1])
        invariant
            start <= end <= n == s.len(),
            chars@ == s,
            trimmed(s) == trim_end(s.subrange(start as int, end as int)),
        decreases end,
    {
        proof {
            let part = s.subrange(start as int, end as int);
            assert(part.drop_last() =~= s.subrange(start as int, end - 1));
        }
        end = end - 1;
    }
    proof {
        let part = s.subrange(start as int, end as int);
        if end == start {
            assert(part.len() == 0);
        }
        assert(trim_end(part) == part);
    }
    let ghost t = s.subrange(start as int, end as int);
    assert(trimmed(s) == t);
    if end == start {
        return Err(NameError::Empty);
    }
    if end - start > MAX_NAME_CHARS {
        return Err(NameError::TooLong);
    }
    let mut kept: Vec<char> = Vec::new();
    let mut i = start;
    while i < end
        invariant
            start <= i <= end <= n == s.len(),
            chars@ == s,
            t == s.subrange(start as int, end as int),
            trimmed(s) == t,
            name@ == s,
            0 < t.len() <= MAX_NAME_CHARS,
            kept@ == s.subrange(start as int, i as int),
            forall|k: int| 0 <= k < i - start ==> !is_control(#[trigger] t[k]),
        decreases end - i,
    {
        let c = chars[i];
        if crate::name_editor::char_is_control(c) {
            proof {
                assert(is_control(t[i - start]));
            }
            return Err(NameError::ControlCharacter);
        }
        kept.push(c);
        proof {
            assert(s.subrange(start as int, i + 1) =~= s.subrange(start as int, i as int).push(c));
        }
        i = i + 1;
    }
    proof {
        assert(kept@ =~= t);
    }
    Ok(string_of(&kept))
}

/// The lowercase form of a string (as `str::to_lowercase` maps it).
pub uninterp spec fn lowercase(s: Seq<char>) -> Seq<char>;

/// The lowercase form of `s` (`str::to_lowercase`).
#[verifier::external_body]
fn lowercase_of(s: &str) -> (r: String)
    ensures
        r@ == lowercase(s@),
{
    s.to_lowercase()
}

/// Whether two sequences of characters are equal.
pub fn same_chars(a: &Vec<char>, b: &Vec<char>) -> (r: bool)
    ensures
        r == (a@ == b@),
{
    if a.len() != b.len() {
        return false;
    }
    let mut i: usize = 0;
    while i < a.len()
        invariant
            i <= a@.len() == b@.len(),
            forall|k: int| 0 <= k < i ==> a@[k] == b@[k],
        decreases a@.len() - i,
    {
        if a[i] != b[i] {
            return false;
        }
        i = i + 1;
    }
    proof {
        assert(a@ =~= b@);
    }
    true
}

/// Whether two names are the same without regard to case: whether their lowercase forms are
/// equal.
pub fn names_equal(a: &str, b: &str) -> (r: bool)
    ensures
        r == (lowercase(a@) == lowercase(b@)),
{
    let la = lowercase_of(a);
    let lb = lowercase_of(b);
    let ca = chars_of(la.as_str());
    let cb = chars_of(lb.as_str());
    same_chars(&ca, &cb)
}

/// What trimming the start leaves does not start with whitespace.
proof fn lemma_trim_start_head(s: Seq<char>)
    ensures
        trim_start(s).len() > 0 ==> !is_white_space(trim_start(s)[0]),
    decreases s.len(),
{
    if s.len() > 0 && is_white_space(s[0]) {
        lemma_trim_start_head(s.drop_first());
    }
}

/// Trimming the end leaves a prefix that does not end with whitespace.
proof fn lemma_trim_end_prefix(s: Seq<char>)
    ensures
        trim_end(s).len() <= s.len(),
        trim_end(s) == s.subrange(0, trim_end(s).len() as int),
        trim_end(s).len() > 0 ==> !is_white_space(trim_end(s).last()),
    decreases s.len(),
{
    if s.len() > 0 && is_white_space(s.last()) {
        lemma_trim_end_prefix(s.drop_last());
        assert(s.drop_last().subrange(0, trim_end(s).len() as int) =~= s.subrange(0, trim_end(s).len() as int));
    } else {
        assert(s.subrange(0, s.len() as int) =~= s);
    }
}

/// A normalized name normalizes to itself.
pub proof fn lemma_normalized_is_stable(s: Seq<char>)
    requires
        normalized(s) is Ok,
    ensures
        normalized(normalized(s)->Ok_0) == normalized(s),
{
    let u = trim_start(s);
    let t = trimmed(s);
    lemma_trim_start_head(s);
    lemma_trim_end_prefix(u);
    assert(t.len() > 0);
    assert(t[0] == u[0]);
    assert(trim_start(t) == t);
    assert(trim_end(t) == t);
    assert(trimmed(t) == t);
}

} // verus!
