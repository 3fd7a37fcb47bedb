//! Text primitives the workflow relies on: the whitespace test behind message
//! validation, trimming for the interactively entered token, substring search
//! for the tracked-files check, and plain string equality.

use vstd::prelude::*;

verus! {

/// Whitespace as this tool understands it when trimming and when judging a
/// commit message blank: the characters with the Unicode white-space
/// property, the set str::trim removes.
pub open spec fn is_ws(c: char) -> bool {
    let u = c as u32;
    (9 <= u && u <= 13) || u == 0x20 || u == 0x85 || u == 0xA0 || u == 0x1680 || (0x2000 <= u
        && u <= 0x200A) || u == 0x2028 || u == 0x2029 || u == 0x202F || u == 0x205F || u == 0x3000
}

/// A text is blank when every character of it is whitespace.
pub open spec fn spec_is_blank(s: Seq<char>) -> bool {
    forall|i: int| 0 <= i < s.len() ==> is_ws(s[i])
}

/// Relies on String::push: appends exactly one character at the end.
#[verifier::external_body]
pub(crate) fn push_char(s: &mut String, c: char)
    ensures
        final(s)@ == old(s)@.push(c),
{
    s.push(c);
}

fn is_ws_char(c: char) -> (r: bool)
    ensures
        r == is_ws(c),
{
    let u = c as u32;
    (9 <= u && u <= 13) || u == 0x20 || u == 0x85 || u == 0xA0 || u == 0x1680 || (0x2000 <= u
        && u <= 0x200A) || u == 0x2028 || u == 0x2029 || u == 0x202F || u == 0x205F || u == 0x3000
}

/// True exactly when the text contains nothing but whitespace; an empty text
/// is blank.
pub fn is_blank(s: &str) -> (r: bool)
    ensures
        r == spec_is_blank(s@),
{
    let n = s.unicode_len();
    let mut i: usize = 0;
    while i < n
        invariant
            n == s@.len(),
            i <= n,
            forall|j: int| 0 <= j < i ==> is_ws(s@[j]),
        decreases n - i,
    {
        if !is_ws_char(s.get_char(i)) {
            return false;
        }
        i += 1;
    }
    true
}

/// The text with its leading whitespace removed.
pub open spec fn trim_front(s: Seq<char>) -> Seq<char>
    decreases s.len(),
{
    if s.len() > 0 && is_ws(s[0]) {
        trim_front(s.drop_first())
    } else {
        s
    }
}

/// The text with its trailing whitespace removed.
pub open spec fn trim_back(s: Seq<char>) -> Seq<char>
    decreases s.len(),
{
    if s.len() > 0 && is_ws(s.last()) {
        trim_back(s.drop_last())
    } else {
        s
    }
}

/// The text with whitespace removed from both ends.
pub open spec fn spec_trim(s: Seq<char>) -> Seq<char> {
    trim_back(trim_front(s))
}

proof fn lemma_trim_front_skip(s: Seq<char>, k: int)
    requires
        0 <= k <= s.len(),
        forall|j: int| 0 <= j < k ==> is_ws(s[j]),
        k == s.len() || !is_ws(s[k]),
    ensures
        trim_front(s) == s.skip(k),
    decreases k,
{
    if k == 0 {
        assert(s.skip(0) =~= s);
    } else {
        assert(is_ws(s[0]));
        lemma_trim_front_skip(s.drop_first(), k - 1);
        assert(s.drop_first().skip(k - 1) =~= s.skip(k));
    }
}

proof fn lemma_trim_back_take(s: Seq<char>, k: int)
    requires
        0 <= k <= s.len(),
        forall|j: int| k <= j < s.len() ==> is_ws(s[j]),
        k == 0 || !is_ws(s[k - 1]),
    ensures
        trim_back(s) == s.take(k),
    decreases s.len() - k,
{
    if k == s.len() {
        assert(s.take(k) =~= s);
        if s.len() > 0 {
            assert(!is_ws(s.last()));
        }
    } else {
        assert(is_ws(s.last()));
        lemma_trim_back_take(s.drop_last(), k);
        assert(s.drop_last().take(k) =~= s.take(k));
    }
}

/// The text with whitespace stripped from both ends, as the token prompt
/// stores what the user typed.
pub fn trim_ws(s: &str) -> (r: String)
    ensures
        r@ == spec_trim(s@),
{
    let n = s.unicode_len();
    let mut lo: usize = 0;
    while lo < n && is_ws_char(s.get_char(lo))
        invariant
            n == s@.len(),
            lo <= n,
            forall|j: int| 0 <= j < lo ==> is_ws(s@[j]),
        decreases n - lo,
    {
        lo += 1;
    }
    proof {
        lemma_trim_front_skip(s@, lo as int);
    }
    if lo == n {
        proof {
            assert(s@.skip(lo as int) =~= Seq::<char>::empty());
        }
        return String::new();
    }
    let mut hi: usize = n;
    while hi > lo && is_ws_char(s.get_char(hi - 1))
        invariant
            n == s@.len(),
            lo <= hi <= n,
            forall|j: int| hi <= j < n ==> is_ws(s@[j]),
        decreases hi,
    {
        hi -= 1;
    }
    proof {
        assert(!is_ws(s@[lo as int]));
        assert(hi > lo);
        assert(!is_ws(s@[hi - 1]));
        let t = s@.skip(lo as int);
        lemma_trim_back_take(t, hi - lo);
        assert(t.take(hi - lo) =~= s@.subrange(lo as int, hi as int));
    }
    let part = s.substring_char(lo, hi);
    part.to_owned()
}

proof fn lemma_trim_front_blank(s: Seq<char>)
    requires
        spec_is_blank(s),
    ensures
        trim_front(s) == Seq::<char>::empty(),
    decreases s.len(),
{
    if s.len() > 0 {
        lemma_trim_front_blank(s.drop_first());
    } else {
        assert(s =~= Seq::<char>::empty());
    }
}

proof fn lemma_trim_back_keeps_head(t: Seq<char>)
    requires
        t.len() > 0,
        !is_ws(t[0]),
    ensures
        trim_back(t).len() > 0,
    decreases t.len(),
{
    if is_ws(t.last()) {
        lemma_trim_back_keeps_head(t.drop_last());
    }
}

/// A text is blank exactly when trimming leaves nothing of it: the validation
/// that trims and tests for emptiness is the blankness test.
pub proof fn lemma_blank_iff_trim_empty(s: Seq<char>)
    ensures
        spec_is_blank(s) <==> spec_trim(s).len() == 0,
{
    if spec_is_blank(s) {
        lemma_trim_front_blank(s);
    } else {
        let k = choose|k: int| 0 <= k < s.len() && !is_ws(s[k]);
        lemma_first_non_ws_exists(s, k);
        let j = choose|j: int|
            0 <= j <= k && !is_ws(s[j]) && forall|i: int| 0 <= i < j ==> is_ws(s[i]);
        lemma_trim_front_skip(s, j);
        assert(!is_ws(s.skip(j)[0]));
        lemma_trim_back_keeps_head(s.skip(j));
    }
}

proof fn lemma_first_non_ws_exists(s: Seq<char>, k: int)
    requires
        0 <= k < s.len(),
        !is_ws(s[k]),
    ensures
        exists|j: int| 0 <= j <= k && !is_ws(s[j]) && forall|i: int| 0 <= i < j ==> is_ws(s[i]),
    decreases k,
{
    if forall|i: int| 0 <= i < k ==> is_ws(s[i]) {
        assert(0 <= k <= k && !is_ws(s[k]) && forall|i: int| 0 <= i < k ==> is_ws(s[i]));
    } else {
        let k2 = choose|k2: int| 0 <= k2 < k && !is_ws(s[k2]);
        lemma_first_non_ws_exists(s, k2);
        let j = choose|j: int|
            0 <= j <= k2 && !is_ws(s[j]) && forall|i: int| 0 <= i < j ==> is_ws(s[i]);
        assert(0 <= j <= k && !is_ws(s[j]) && forall|i: int| 0 <= i < j ==> is_ws(s[i]));
    }
}

/// The needle occurs somewhere in the haystack as a contiguous run; an empty
/// needle occurs everywhere.
pub open spec fn spec_contains(hay: Seq<char>, needle: Seq<char>) -> bool {
    exists|i: int|
        0 <= i && i + needle.len() <= hay.len() && #[trigger] hay.subrange(i, i + needle.len())
            == needle
}

/// Substring search, as the tracked-files check uses it on the status output.
pub fn contains_sub(hay: &str, needle: &str) -> (r: bool)
    ensures
        r == spec_contains(hay@, needle@),
{
    let hn = hay.unicode_len();
    let nn = needle.unicode_len();
    if nn > hn {
        return false;
    }
    if nn == 0 {
        proof {
            assert(hay@.subrange(0, 0 + needle@.len() as int) =~= needle@);
        }
        return true;
    }
    let mut i: usize = 0;
    while i <= hn - nn
        invariant
            hn == hay@.len(),
            nn == needle@.len(),
            1 <= nn <= hn,
            i <= hn - nn + 1,
            forall|k: int| 0 <= k < i ==> #[trigger] hay@.subrange(k, k + nn as int) != needle@,
        decreases hn - nn - i + 1,
    {
        let mut j: usize = 0;
        let mut ok = true;
        while j < nn && ok
            invariant
                hn == hay@.len(),
                nn == needle@.len(),
                i + nn <= hn,
                j <= nn,
                ok ==> forall|t: int| 0 <= t < j ==> hay@[i + t] == needle@[t],
                !ok ==> hay@.subrange(i as int, i + nn as int) != needle@,
            decreases nn - j + (if ok {
                1int
            } else {
                0int
            }),
        {
            if hay.get_char(i + j) != needle.get_char(j) {
                proof {
                    assert(hay@.subrange(i as int, i + nn as int)[j as int] != needle@[j as int]);
                }
                ok = false;
            } else {
                j += 1;
            }
        }
        if ok {
            proof {
                assert(hay@.subrange(i as int, i + nn as int) =~= needle@);
            }
            return true;
        }
        i += 1;
    }
    proof {
        assert forall|k: int|
            0 <= k && k + needle@.len() <= hay@.len() implies #[trigger] hay@.subrange(
            k,
            k + nn as int,
        ) != needle@ by {
            assert(k < i);
        }
    }
    false
}

/// Character-for-character string equality, stated over the views.
pub fn str_eq(a: &str, b: &str) -> (r: bool)
    ensures
        r == (a@ == b@),
{
    let na = a.unicode_len();
    let nb = b.unicode_len();
    if na != nb {
        return false;
    }
    let mut i: usize = 0;
    while i < na
        invariant
            na == a@.len(),
            na == b@.len(),
            i <= na,
            forall|j: int| 0 <= j < i ==> a@[j] == b@[j],
        decreases na - i,
    {
        if a.get_char(i) != b.get_char(i) {
            return false;
        }
        i += 1;
    }
    proof {
        assert(a@ =~= b@);
    }
    true
}

} // verus!
