//! Whitespace trimming of keys and values.
//!
//! Keys and values are normalised on entry: leading and trailing whitespace,
//! in the sense of the Unicode `White_Space` property (the definition that
//! `char::is_whitespace` and `str::trim` use), is removed.
use vstd::prelude::*;

verus! {

/// The Unicode `White_Space` property.
pub open spec fn is_white_space(c: char) -> bool {
    let u: u32 = c as u32;
    ||| 0x09 <= u <= 0x0d
    ||| u == 0x20
    ||| u == 0x85
    ||| u == 0xa0
    ||| u == 0x1680
    ||| 0x2000 <= u <= 0x200a
    ||| u == 0x2028
    ||| u == 0x2029
    ||| u == 0x202f
    ||| u == 0x205f
    ||| u == 0x3000
}

/// `s` without its leading whitespace.
pub open spec fn trim_start(s: Seq<char>) -> Seq<char>
    decreases s.len(),
{
    if s.len() > 0 && is_white_space(s[0]) {
        trim_start(s.drop_first())
    } else {
        s
    }
}

/// `s` without its trailing whitespace.
pub open spec fn trim_end(s: Seq<char>) -> Seq<char>
    decreases s.len(),
{
    if s.len() > 0 && is_white_space(s.last()) {
        trim_end(s.drop_last())
    } else {
        s
    }
}

/// `s` without its leading and trailing whitespace.
pub open spec fn trim(s: Seq<char>) -> Seq<char> {
    trim_end(trim_start(s))
}

/// Whether `s` neither starts nor ends with whitespace.
pub open spec fn is_trimmed(s: Seq<char>) -> bool {
    s.len() > 0 ==> !is_white_space(s[0]) && !is_white_space(s.last())
}

/// Decides the Unicode `White_Space` property of `c`.
pub fn white_space(c: char) -> (r: bool)
    ensures
        r == is_white_space(c),
{
    let u: u32 = c as u32;
    (0x09 <= u && u <= 0x0d) || u == 0x20 || u == 0x85 || u == 0xa0 || u == 0x1680 || (0x2000
        <= u && u <= 0x200a) || u == 0x2028 || u == 0x2029 || u == 0x202f || u == 0x205f || u
        == 0x3000
}

proof fn lemma_trim_start_skip(s: Seq<char>, i: int)
    requires
        0 <= i <= s.len(),
        forall|j: int| 0 <= j < i ==> is_white_space(#[trigger] s[j]),
    ensures
        trim_start(s) == trim_start(s.subrange(i, s.len() as int)),
    decreases i,
{
    if i > 0 {
        let t = s.drop_first();
        assert forall|j: int| 0 <= j < i - 1 implies is_white_space(#[trigger] t[j]) by {
            assert(t[j] == s[j + 1]);
        }
        lemma_trim_start_skip(t, i - 1);
        assert(t.subrange(i - 1, t.len() as int) =~= s.subrange(i, s.len() as int));
    } else {
        assert(s.subrange(0, s.len() as int) =~= s);
    }
}

proof fn lemma_trim_end_take(s: Seq<char>, j: int)
    requires
        0 <= j <= s.len(),
        forall|k: int| j <= k < s.len() ==> is_white_space(#[trigger] s[k]),
    ensures
        trim_end(s) == trim_end(s.subrange(0, j)),
    decreases s.len() - j,
{
    if j < s.len() {
        let t = s.drop_last();
        assert forall|k: int| j <= k < t.len() implies is_white_space(#[trigger] t[k]) by {
            assert(t[k] == s[k]);
        }
        lemma_trim_end_take(t, j);
        assert(t.subrange(0, j) =~= s.subrange(0, j));
    } else {
        assert(s.subrange(0, j) =~= s);
    }
}

/// Whitespace at the ends only: trimming what is already trimmed changes nothing.
pub proof fn lemma_trimmed_fixed(s: Seq<char>)
    requires
        is_trimmed(s),
    ensures
        trim(s) == s,
{
}

/// What `trim` gives back neither starts nor ends with whitespace, and it is a
/// contiguous part of its argument.
pub proof fn lemma_trim_is_trimmed(s: Seq<char>)
    ensures
        is_trimmed(trim(s)),
        exists|i: int, j: int| 0 <= i <= j <= s.len() && trim(s) == s.subrange(i, j),
    decreases s.len(),
{
    if s.len() > 0 && is_white_space(s[0]) {
        lemma_trim_is_trimmed(s.drop_first());
        let (i, j): (int, int) = choose|i: int, j: int|
            0 <= i <= j <= s.drop_first().len() && trim(s.drop_first())
                == s.drop_first().subrange(i, j);
        assert(s.drop_first().subrange(i, j) =~= s.subrange(i + 1, j + 1));
    } else {
        lemma_trim_end_is_trimmed(s);
        let j: int = choose|j: int| 0 <= j <= s.len() && trim_end(s) == s.subrange(0, j);
    }
}

proof fn lemma_trim_end_is_trimmed(s: Seq<char>)
    requires
        s.len() > 0 ==> !is_white_space(s[0]),
    ensures
        is_trimmed(trim_end(s)),
        exists|j: int| 0 <= j <= s.len() && trim_end(s) == s.subrange(0, j),
    decreases s.len(),
{
    if s.len() > 0 && is_white_space(s.last()) {
        let t = s.drop_last();
        if t.len() > 0 {
            assert(t[0] == s[0]);
        }
        lemma_trim_end_is_trimmed(t);
        let j: int = choose|j: int| 0 <= j <= t.len() && trim_end(t) == t.subrange(0, j);
        assert(t.subrange(0, j) =~= s.subrange(0, j));
    } else {
        assert(s.subrange(0, s.len() as int) =~= s);
    }
}

/// Trimming twice is trimming once.
pub proof fn lemma_trim_idempotent(s: Seq<char>)
    ensures
        trim(trim(s)) == trim(s),
{
    lemma_trim_is_trimmed(s);
    lemma_trimmed_fixed(trim(s));
}

/// `s` with its leading and trailing whitespace removed, as `str::trim` gives it.
pub fn trim_string(s: String) -> (r: String)
    ensures
        r@ == trim(s@),
{
    let text = s.as_str();
    let n: usize = text.unicode_len();
    let mut i: usize = 0;
    while i < n && white_space(text.get_char(i))
        invariant
            n == text@.len(),
            text@ == s@,
            0 <= i <= n,
            forall|j: int| 0 <= j < i ==> is_white_space(#[trigger] s@[j]),
        decreases n - i,
    {
        i = i + 1;
    }
    proof {
        lemma_trim_start_skip(s@, i as int);
    }
    let ghost rest = s@.subrange(i as int, n as int);
    assert(trim_start(rest) == rest) by {
        if rest.len() > 0 {
            assert(rest[0] == s@[i as int]);
        }
    }
    let mut j: usize = n;
    while j > i && white_space(text.get_char(j - 1))
        invariant
            n == text@.len(),
            text@ == s@,
            0 <= i <= j <= n,
            rest == s@.subrange(i as int, n as int),
            forall|k: int| j <= k < n ==> is_white_space(#[trigger] s@[k]),
        decreases j,
    {
        j = j - 1;
    }
    proof {
        assert forall|k: int| j - i <= k < rest.len() implies is_white_space(#[trigger] rest[k]) by {
            assert(rest[k] == s@[k + i]);
        }
        lemma_trim_end_take(rest, j - i);
        let kept = rest.subrange(0, j - i);
        assert(kept =~= s@.subrange(i as int, j as int));
        if kept.len() > 0 {
            assert(kept.last() == s@[j - 1]);
        }
    }
    text.substring_char(i, j).to_owned()
}

proof fn lemma_trim_start_shape(s: Seq<char>)
    ensures
        exists|i: int|
            0 <= i <= s.len() && (forall|k: int| 0 <= k < i ==> is_white_space(#[trigger] s[k]))
                && (i < s.len() ==> !is_white_space(s[i])) && trim_start(s) == s.subrange(
                i,
                s.len() as int,
            ),
    decreases s.len(),
{
    if s.len() > 0 && is_white_space(s[0]) {
        let t = s.drop_first();
        lemma_trim_start_shape(t);
        let i: int = choose|i: int|
            0 <= i <= t.len() && (forall|k: int| 0 <= k < i ==> is_white_space(#[trigger] t[k]))
                && (i < t.len() ==> !is_white_space(t[i])) && trim_start(t) == t.subrange(
                i,
                t.len() as int,
            );
        assert forall|k: int| 0 <= k < i + 1 implies is_white_space(#[trigger] s[k]) by {
            if k > 0 {
                assert(s[k] == t[k - 1]);
            }
        }
        assert(t.subrange(i, t.len() as int) =~= s.subrange(i + 1, s.len() as int));
        if i + 1 < s.len() {
            assert(s[i + 1] == t[i]);
        }
    } else {
        assert(s.subrange(0, s.len() as int) =~= s);
    }
}

proof fn lemma_trim_end_shape(s: Seq<char>)
    ensures
        exists|j: int|
            0 <= j <= s.len() && (forall|k: int| j <= k < s.len() ==> is_white_space(#[trigger] s[k]))
                && (j > 0 ==> !is_white_space(s[j - 1])) && trim_end(s) == s.subrange(0, j),
    decreases s.len(),
{
    if s.len() > 0 && is_white_space(s.last()) {
        let t = s.drop_last();
        lemma_trim_end_shape(t);
        let j: int = choose|j: int|
            0 <= j <= t.len() && (forall|k: int| j <= k < t.len() ==> is_white_space(#[trigger] t[k]))
                && (j > 0 ==> !is_white_space(t[j - 1])) && trim_end(t) == t.subrange(0, j);
        assert forall|k: int| j <= k < s.len() implies is_white_space(#[trigger] s[k]) by {
            if k < s.len() - 1 {
                assert(s[k] == t[k]);
            }
        }
        assert(t.subrange(0, j) =~= s.subrange(0, j));
        if j > 0 {
            assert(s[j - 1] == t[j - 1]);
        }
    } else {
        assert(s.subrange(0, s.len() as int) =~= s);
    }
}

/// Trimming removes only leading and trailing whitespace: the result is the
/// part of `s` from its first to its last character that is not whitespace,
/// everything before and after that part being whitespace (empty when all of
/// `s` is whitespace).
pub proof fn law_trim_strips_only_ends(s: Seq<char>)
    ensures
        exists|i: int, j: int|
            {
                &&& 0 <= i <= j <= s.len()
                &&& forall|k: int| 0 <= k < i ==> is_white_space(#[trigger] s[k])
                &&& forall|k: int| j <= k < s.len() ==> is_white_space(#[trigger] s[k])
                &&& i < j ==> !is_white_space(s[i]) && !is_white_space(s[j - 1])
                &&& trim(s) == s.subrange(i, j)
            },
{
    lemma_trim_start_shape(s);
    let i: int = choose|i: int|
        0 <= i <= s.len() && (forall|k: int| 0 <= k < i ==> is_white_space(#[trigger] s[k])) && (i
            < s.len() ==> !is_white_space(s[i])) && trim_start(s) == s.subrange(i, s.len() as int);
    let t = s.subrange(i, s.len() as int);
    lemma_trim_end_shape(t);
    let m: int = choose|m: int|
        0 <= m <= t.len() && (forall|k: int| m <= k < t.len() ==> is_white_space(#[trigger] t[k]))
            && (m > 0 ==> !is_white_space(t[m - 1])) && trim_end(t) == t.subrange(0, m);
    let j = i + m;
    assert(t.subrange(0, m) =~= s.subrange(i, j));
    assert forall|k: int| j <= k < s.len() implies is_white_space(#[trigger] s[k]) by {
        assert(s[k] == t[k - i]);
    }
    if i < j {
        assert(s[j - 1] == t[m - 1]);
    }
    assert(0 <= i <= j <= s.len());
}

} // verus!
