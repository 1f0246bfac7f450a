//! Character-sequence primitives used by the comment parser and the
//! renderer: whitespace trimming, prefix tests, prefix stripping and
//! splitting into lines.

use vstd::prelude::*;

verus! {

/// A whitespace character: the Unicode `White_Space` set.
pub open spec fn is_space(c: char) -> bool {
    c == ' ' || c == '\t' || c == '\n' || c == '\r' || c == '\u{000B}' || c == '\u{000C}'
        || c == '\u{0085}' || c == '\u{00A0}' || c == '\u{1680}' || c == '\u{2000}'
        || c == '\u{2001}' || c == '\u{2002}' || c == '\u{2003}' || c == '\u{2004}'
        || c == '\u{2005}' || c == '\u{2006}' || c == '\u{2007}' || c == '\u{2008}'
        || c == '\u{2009}' || c == '\u{200A}' || c == '\u{2028}' || c == '\u{2029}'
        || c == '\u{202F}' || c == '\u{205F}' || c == '\u{3000}'
}

pub fn is_space_char(c: char) -> (r: bool)
    ensures
        r == is_space(c),
{
    c == ' ' || c == '\t' || c == '\n' || c == '\r' || c == '\u{000B}' || c == '\u{000C}'
        || c == '\u{0085}' || c == '\u{00A0}' || c == '\u{1680}' || c == '\u{2000}'
        || c == '\u{2001}' || c == '\u{2002}' || c == '\u{2003}' || c == '\u{2004}'
        || c == '\u{2005}' || c == '\u{2006}' || c == '\u{2007}' || c == '\u{2008}'
        || c == '\u{2009}' || c == '\u{200A}' || c == '\u{2028}' || c == '\u{2029}'
        || c == '\u{202F}' || c == '\u{205F}' || c == '\u{3000}'
}

/// The sequence with its leading whitespace removed.
pub open spec fn trim_front(s: Seq<char>) -> Seq<char>
    decreases s.len(),
{
    if s.len() > 0 && is_space(s[0]) {
        trim_front(s.drop_first())
    } else {
        s
    }
}

/// The sequence with its trailing whitespace removed.
pub open spec fn trim_back(s: Seq<char>) -> Seq<char>
    decreases s.len(),
{
    if s.len() > 0 && is_space(s.last()) {
        trim_back(s.drop_last())
    } else {
        s
    }
}

/// The sequence with leading and trailing whitespace removed.
pub open spec fn trimmed(s: Seq<char>) -> Seq<char> {
    trim_back(trim_front(s))
}

pub proof fn lemma_trim_front_skip(s: Seq<char>, i: int)
    requires
        0 <= i <= s.len(),
        forall|k: int| 0 <= k < i ==> is_space(s[k]),
        i == s.len() || !is_space(s[i]),
    ensures
        trim_front(s) == s.subrange(i, s.len() as int),
    decreases i,
{
    if i == 0 {
        assert(trim_front(s) =~= s.subrange(0, s.len() as int));
    } else {
        let sd = s.drop_first();
        assert(forall|k: int| 0 <= k < i - 1 ==> is_space(#[trigger] sd[k]));
        lemma_trim_front_skip(sd, i - 1);
        assert(sd.subrange(i - 1, sd.len() as int) =~= s.subrange(i, s.len() as int));
    }
}

pub proof fn lemma_trim_back_take(s: Seq<char>, j: int)
    requires
        0 <= j <= s.len(),
        forall|k: int| j <= k < s.len() ==> is_space(s[k]),
        j == 0 || !is_space(s[j - 1]),
    ensures
        trim_back(s) == s.subrange(0, j),
    decreases s.len() - j,
{
    if j == s.len() {
        assert(trim_back(s) =~= s.subrange(0, j));
    } else {
        let sd = s.drop_last();
        assert(is_space(s.last()));
        assert(forall|k: int| j <= k < sd.len() ==> is_space(#[trigger] sd[k]));
        lemma_trim_back_take(sd, j);
        assert(sd.subrange(0, j) =~= s.subrange(0, j));
    }
}

/// A sequence whose first and last characters are not whitespace is
/// its own trimming.
pub proof fn lemma_trimmed_fixpoint(s: Seq<char>)
    requires
        s.len() == 0 || (!is_space(s[0]) && !is_space(s[s.len() - 1])),
    ensures
        trimmed(s) == s,
{
    lemma_trim_front_skip(s, 0);
    assert(s.subrange(0, s.len() as int) =~= s);
    lemma_trim_back_take(s, s.len() as int);
}

pub proof fn lemma_trim_front_len(s: Seq<char>)
    ensures
        trim_front(s).len() <= s.len(),
    decreases s.len(),
{
    if s.len() > 0 && is_space(s[0]) {
        lemma_trim_front_len(s.drop_first());
    }
}

pub proof fn lemma_trim_back_len(s: Seq<char>)
    ensures
        trim_back(s).len() <= s.len(),
    decreases s.len(),
{
    if s.len() > 0 && is_space(s.last()) {
        lemma_trim_back_len(s.drop_last());
    }
}

/// A sequence equal to its own trimming is empty or bounded by
/// non-whitespace characters on both ends.
pub proof fn lemma_trimmed_fix_chars(s: Seq<char>)
    requires
        trimmed(s) == s,
    ensures
        s.len() == 0 || (!is_space(s[0]) && !is_space(s[s.len() - 1])),
{
    if s.len() > 0 {
        if is_space(s[0]) {
            assert(trim_front(s) == trim_front(s.drop_first()));
            lemma_trim_front_len(s.drop_first());
            lemma_trim_back_len(trim_front(s.drop_first()));
            assert(trimmed(s).len() < s.len());
        } else {
            assert(trim_front(s) == s);
            if is_space(s[s.len() - 1]) {
                assert(trim_back(s) == trim_back(s.drop_last()));
                lemma_trim_back_len(s.drop_last());
                assert(trimmed(s).len() < s.len());
            }
        }
    }
}

/// Trimming ignores a leading whitespace character.
pub proof fn lemma_trimmed_cons_space(s: Seq<char>)
    requires
        s.len() > 0,
        is_space(s[0]),
    ensures
        trimmed(s) == trimmed(s.drop_first()),
{
    assert(trim_front(s) == trim_front(s.drop_first()));
}

/// A trailing line break disappears under trimming.
pub proof fn lemma_trimmed_append_nl(s: Seq<char>)
    requires
        trimmed(s) == s,
    ensures
        trimmed(s + seq!['\n']) == s,
{
    lemma_trimmed_fix_chars(s);
    let sn = s + seq!['\n'];
    if s.len() == 0 {
        assert(is_space('\n'));
        assert(sn.len() == 1 && sn[0] == '\n');
        assert(sn.drop_first() =~= Seq::<char>::empty());
        assert(trim_front(sn) == trim_front(sn.drop_first()));
        assert(trim_front(Seq::<char>::empty()) == Seq::<char>::empty());
        assert(trim_back(Seq::<char>::empty()) == Seq::<char>::empty());
        assert(trimmed(sn) =~= s);
    } else {
        assert(!is_space(sn[0]));
        lemma_trim_front_skip(sn, 0);
        assert(sn.subrange(0, sn.len() as int) =~= sn);
        assert(forall|k: int| s.len() <= k < sn.len() ==> is_space(#[trigger] sn[k]));
        assert(!is_space(sn[s.len() - 1]));
        lemma_trim_back_take(sn, s.len() as int);
        assert(sn.subrange(0, s.len() as int) =~= s);
    }
}

/// A non-empty trimmed sequence wrapped in line breaks trims back to
/// itself.
pub proof fn lemma_trimmed_wrap_nl(x: Seq<char>)
    requires
        trimmed(x) == x,
        x.len() > 0,
    ensures
        trimmed(seq!['\n'] + x + seq!['\n']) == x,
{
    lemma_trimmed_fix_chars(x);
    let w = seq!['\n'] + x + seq!['\n'];
    assert(is_space(w[0]));
    assert(w[1] == x[0] && !is_space(w[1]));
    lemma_trim_front_skip(w, 1);
    let r = w.subrange(1, w.len() as int);
    assert(r =~= x + seq!['\n']);
    assert(forall|k: int| x.len() <= k < r.len() ==> is_space(#[trigger] r[k]));
    assert(!is_space(r[x.len() - 1]));
    lemma_trim_back_take(r, x.len() as int);
    assert(r.subrange(0, x.len() as int) =~= x);
}

pub fn trim_str<'a>(s: &'a str) -> (r: &'a str)
    ensures
        r@ == trimmed(s@),
{
    let n = s.unicode_len();
    let mut b: usize = 0;
    while b < n && is_space_char(s.get_char(b))
        invariant
            0 <= b <= n,
            n == s@.len(),
            forall|k: int| 0 <= k < b ==> is_space(s@[k]),
        decreases n - b,
    {
        b = b + 1;
    }
    let mut e: usize = n;
    while e > b && is_space_char(s.get_char(e - 1))
        invariant
            b <= e <= n,
            n == s@.len(),
            forall|k: int| e <= k < n ==> is_space(s@[k]),
        decreases e,
    {
        e = e - 1;
    }
    proof {
        lemma_trim_front_skip(s@, b as int);
        let t = s@.subrange(b as int, n as int);
        assert(forall|k: int| e - b <= k < t.len() ==> is_space(#[trigger] t[k]));
        lemma_trim_back_take(t, e - b);
        assert(t.subrange(0, e - b) =~= s@.subrange(b as int, e as int));
    }
    s.substring_char(b, e)
}

/// `p` is a prefix of `s`.
pub open spec fn starts_with(s: Seq<char>, p: Seq<char>) -> bool {
    p.len() <= s.len() && forall|k: int| 0 <= k < p.len() ==> s[k] == p[k]
}

pub fn has_prefix(s: &str, p: &str) -> (r: bool)
    ensures
        r == starts_with(s@, p@),
{
    let sn = s.unicode_len();
    let pn = p.unicode_len();
    if pn > sn {
        return false;
    }
    let mut i: usize = 0;
    while i < pn
        invariant
            0 <= i <= pn,
            pn <= sn,
            pn == p@.len(),
            sn == s@.len(),
            forall|k: int| 0 <= k < i ==> s@[k] == p@[k],
        decreases pn - i,
    {
        if s.get_char(i) != p.get_char(i) {
            return false;
        }
        i = i + 1;
    }
    true
}

pub fn str_eq(a: &str, b: &str) -> (r: bool)
    ensures
        r == (a@ == b@),
{
    let an = a.unicode_len();
    let bn = b.unicode_len();
    if an != bn {
        return false;
    }
    let mut i: usize = 0;
    while i < an
        invariant
            0 <= i <= an,
            an == a@.len(),
            bn == b@.len(),
            an == bn,
            forall|k: int| 0 <= k < i ==> a@[k] == b@[k],
        decreases an - i,
    {
        if a.get_char(i) != b.get_char(i) {
            return false;
        }
        i = i + 1;
    }
    proof {
        assert(a@ =~= b@);
    }
    true
}

/// `s` with every copy of the prefix `p` removed from the front, one
/// after the other, until none is left.
pub open spec fn strip_all(s: Seq<char>, p: Seq<char>) -> Seq<char>
    decreases s.len(),
{
    if p.len() > 0 && starts_with(s, p) {
        strip_all(s.skip(p.len() as int), p)
    } else {
        s
    }
}

pub fn strip_prefix_all<'a>(s: &'a str, p: &str) -> (r: &'a str)
    requires
        p@.len() > 0,
    ensures
        r@ == strip_all(s@, p@),
    decreases s@.len(),
{
    if has_prefix(s, p) {
        let rest = s.substring_char(p.unicode_len(), s.unicode_len());
        proof {
            assert(rest@ =~= s@.skip(p@.len() as int));
        }
        strip_prefix_all(rest, p)
    } else {
        s
    }
}

/// Index of the first line break in `s`, or `-1` if there is none.
pub open spec fn first_nl(s: Seq<char>) -> int
    decreases s.len(),
{
    if s.len() == 0 {
        -1
    } else if s[0] == '\n' {
        0
    } else {
        let r = first_nl(s.drop_first());
        if r < 0 {
            -1
        } else {
            r + 1
        }
    }
}

pub proof fn lemma_first_nl_bounds(s: Seq<char>)
    ensures
        first_nl(s) >= 0 ==> first_nl(s) < s.len() && s[first_nl(s)] == '\n',
        first_nl(s) >= 0 ==> forall|k: int| 0 <= k < first_nl(s) ==> s[k] != '\n',
        first_nl(s) < 0 ==> forall|k: int| 0 <= k < s.len() ==> s[k] != '\n',
    decreases s.len(),
{
    if s.len() > 0 && s[0] != '\n' {
        lemma_first_nl_bounds(s.drop_first());
        let sd = s.drop_first();
        if first_nl(s) < 0 {
            assert forall|k: int| 0 <= k < s.len() implies #[trigger] s[k] != '\n' by {
                if k >= 1 {
                    assert(s[k] == sd[k - 1]);
                }
            }
        } else {
            assert forall|k: int| 0 <= k < first_nl(s) implies #[trigger] s[k] != '\n' by {
                if k >= 1 {
                    assert(s[k] == sd[k - 1]);
                    assert(sd[k - 1] != '\n');
                }
            }
        }
    }
}

/// Where the first `i` characters hold no line break, the first line
/// break of `s` is at `i`, or absent if `i` is the length.
pub proof fn lemma_first_nl_from(s: Seq<char>, i: int)
    requires
        0 <= i <= s.len(),
        forall|k: int| 0 <= k < i ==> s[k] != '\n',
        i == s.len() || s[i] == '\n',
    ensures
        i == s.len() ==> first_nl(s) == -1,
        i < s.len() ==> first_nl(s) == i,
    decreases i,
{
    if i == 0 {
        if s.len() > 0 && s[0] != '\n' {
            lemma_first_nl_bounds(s);
        }
    } else {
        let sd = s.drop_first();
        assert(forall|k: int| 0 <= k < i - 1 ==> #[trigger] sd[k] != '\n');
        lemma_first_nl_from(sd, i - 1);
    }
}

/// `s` split at every line break; the separators themselves are not
/// kept. A sequence without a line break is one line.
pub open spec fn split_lines(s: Seq<char>) -> Seq<Seq<char>>
    decreases s.len(),
    via split_lines_decreases
{
    let i = first_nl(s);
    if i < 0 {
        seq![s]
    } else {
        seq![s.take(i)] + split_lines(s.skip(i + 1))
    }
}

#[via_fn]
proof fn split_lines_decreases(s: Seq<char>) {
    lemma_first_nl_bounds(s);
}

/// A sequence without a line break is a single line.
pub proof fn lemma_split_no_nl(s: Seq<char>)
    requires
        forall|k: int| 0 <= k < s.len() ==> s[k] != '\n',
    ensures
        split_lines(s) == seq![s],
{
    lemma_first_nl_from(s, s.len() as int);
}

/// Splitting distributes over a line break between two parts.
pub proof fn lemma_split_concat(a: Seq<char>, b: Seq<char>)
    ensures
        split_lines(a + seq!['\n'] + b) == split_lines(a) + split_lines(b),
    decreases a.len(),
{
    let s = a + seq!['\n'] + b;
    lemma_first_nl_bounds(a);
    let i = first_nl(a);
    assert(forall|k: int| 0 <= k < a.len() ==> s[k] == a[k]);
    if i < 0 {
        lemma_first_nl_from(s, a.len() as int);
        assert(s[a.len() as int] == '\n');
        assert(first_nl(s) == a.len());
        assert(s.take(a.len() as int) =~= a);
        assert(s.skip(a.len() as int + 1) =~= b);
        assert(split_lines(s) == seq![a] + split_lines(b));
        assert(split_lines(a) =~~= seq![a]);
    } else {
        assert(a[i] == '\n');
        lemma_first_nl_from(s, i);
        assert(first_nl(s) == i);
        assert(s.take(i) =~= a.take(i));
        assert(s.skip(i + 1) =~= (a.skip(i + 1) + seq!['\n']) + b);
        lemma_split_concat(a.skip(i + 1), b);
        assert(split_lines(s) == seq![a.take(i)] + (split_lines(a.skip(i + 1)) + split_lines(b)));
        assert(split_lines(a) == seq![a.take(i)] + split_lines(a.skip(i + 1)));
        assert(seq![a.take(i)] + (split_lines(a.skip(i + 1)) + split_lines(b)) =~~= (seq![a.take(i)]
            + split_lines(a.skip(i + 1))) + split_lines(b));
    }
}

} // verus!
