//! Splitting tool output into lines and whitespace-separated fields.
use vstd::prelude::*;
use crate::flash::fat_names::{chars_of, string_of};
use crate::models::{is_space, is_space_exec};

verus! {

/// Index of the first `c` in `s`, or -1.
pub open spec fn index_of(s: Seq<char>, c: char) -> int
    decreases s.len(),
{
    if s.len() == 0 {
        -1
    } else if s[0] == c {
        0
    } else {
        let r = index_of(s.skip(1), c);
        if r < 0 {
            -1
        } else {
            r + 1
        }
    }
}

pub proof fn lemma_index_of(s: Seq<char>, c: char)
    ensures
        -1 <= index_of(s, c) < s.len(),
        index_of(s, c) >= 0 ==> s[index_of(s, c)] == c,
        index_of(s, c) >= 0 ==> forall|j: int| 0 <= j < index_of(s, c) ==> s[j] != c,
        index_of(s, c) < 0 ==> forall|j: int| 0 <= j < s.len() ==> s[j] != c,
    decreases s.len(),
{
    if s.len() > 0 && s[0] != c {
        lemma_index_of(s.skip(1), c);
        assert forall|j: int| 1 <= j < s.len() implies s[j] == s.skip(1)[j - 1] by {}
    }
}

/// The pieces of `s` between `\n` characters.
pub open spec fn split_newlines(s: Seq<char>) -> Seq<Seq<char>>
    decreases s.len(),
{
    let i = index_of(s, '\n');
    if i < 0 {
        seq![s]
    } else {
        proof {
            lemma_index_of(s, '\n');
        }
        seq![s.take(i)] + split_newlines(s.skip(i + 1))
    }
}

/// A line without a trailing `\r`.
pub open spec fn strip_cr(l: Seq<char>) -> Seq<char> {
    if l.len() > 0 && l.last() == '\r' {
        l.drop_last()
    } else {
        l
    }
}

/// The lines of a text (`str::lines`): split at `\n`, a trailing `\r`
/// dropped from each, no line after a final `\n`.
pub open spec fn lines_of(s: Seq<char>) -> Seq<Seq<char>> {
    let parts = if s.len() == 0 {
        Seq::empty()
    } else if s.last() == '\n' {
        split_newlines(s).drop_last()
    } else {
        split_newlines(s)
    };
    parts.map_values(|l: Seq<char>| strip_cr(l))
}

/// Number of leading white-space characters.
pub open spec fn ws_len(s: Seq<char>) -> nat
    decreases s.len(),
{
    if s.len() > 0 && is_space(s[0]) {
        1 + ws_len(s.skip(1))
    } else {
        0
    }
}

/// Number of leading characters that are not white space.
pub open spec fn word_len(s: Seq<char>) -> nat
    decreases s.len(),
{
    if s.len() > 0 && !is_space(s[0]) {
        1 + word_len(s.skip(1))
    } else {
        0
    }
}

/// The white-space separated fields of a text (`str::split_whitespace`).
pub open spec fn fields_of(s: Seq<char>) -> Seq<Seq<char>>
    decreases s.len(),
{
    let t = s.skip(ws_len(s) as int);
    if ws_len(s) >= s.len() {
        Seq::empty()
    } else {
        proof {
            lemma_ws_len(s);
            lemma_word_len(t);
            assert(t[0] == s[ws_len(s) as int]);
        }
        seq![t.take(word_len(t) as int)] + fields_of(t.skip(word_len(t) as int))
    }
}

pub proof fn lemma_ws_len(s: Seq<char>)
    ensures
        ws_len(s) <= s.len(),
        forall|j: int| 0 <= j < ws_len(s) ==> is_space(#[trigger] s[j]),
        ws_len(s) < s.len() ==> !is_space(s[ws_len(s) as int]),
    decreases s.len(),
{
    if s.len() > 0 && is_space(s[0]) {
        lemma_ws_len(s.skip(1));
        assert forall|j: int| 0 <= j < ws_len(s) implies is_space(#[trigger] s[j]) by {
            if j > 0 {
                assert(s[j] == s.skip(1)[j - 1]);
            }
        }
    }
}

pub proof fn lemma_word_len(s: Seq<char>)
    ensures
        word_len(s) <= s.len(),
        forall|j: int| 0 <= j < word_len(s) ==> !is_space(#[trigger] s[j]),
        word_len(s) < s.len() ==> is_space(s[word_len(s) as int]),
    decreases s.len(),
{
    if s.len() > 0 && !is_space(s[0]) {
        lemma_word_len(s.skip(1));
        assert forall|j: int| 0 <= j < word_len(s) implies !is_space(#[trigger] s[j]) by {
            if j > 0 {
                assert(s[j] == s.skip(1)[j - 1]);
            }
        }
    }
}

/// Texts of a list of strings.
pub open spec fn strings_view(v: Seq<String>) -> Seq<Seq<char>> {
    v.map_values(|s: String| s@)
}

fn sub_chars(v: &Vec<char>, from: usize, to: usize) -> (r: Vec<char>)
    requires
        from <= to <= v.len(),
    ensures
        r@ == v@.subrange(from as int, to as int),
{
    let mut out: Vec<char> = Vec::new();
    let mut i = from;
    while i < to
        invariant
            from <= i <= to <= v.len(),
            out@ =~= v@.subrange(from as int, i as int),
        decreases to - i,
    {
        out.push(v[i]);
        i = i + 1;
    }
    out
}

/// The white-space separated fields of `s`.
pub fn split_fields(s: &str) -> (r: Vec<String>)
    ensures
        strings_view(r@) == fields_of(s@),
{
    let v = chars_of(s);
    let mut out: Vec<String> = Vec::new();
    let mut i: usize = 0;
    assert(v@.skip(0) =~= v@);
    while i < v.len()
        invariant
            v@ == s@,
            i <= v.len(),
            strings_view(out@) + fields_of(v@.skip(i as int)) == fields_of(s@),
        decreases v.len() - i,
    {
        let ghost rest = v@.skip(i as int);
        proof {
            lemma_ws_len(rest);
        }
        let mut j = i;
        while j < v.len() && is_space_exec(v[j])
            invariant
                i <= j <= v.len(),
                rest == v@.skip(i as int),
                rest.len() == v.len() - i,
                forall|t: int| i <= t < j ==> is_space(#[trigger] v@[t]),
                j - i <= ws_len(rest),
                ws_len(rest) <= rest.len(),
                ws_len(rest) < rest.len() ==> !is_space(rest[ws_len(rest) as int]),
            decreases v.len() - j,
        {
            proof {
                assert(rest[j - i] == v@[j as int]);
                assert(j - i < ws_len(rest));
            }
            j = j + 1;
        }
        proof {
            if (j - i) < ws_len(rest) {
                assert(rest[j - i] == v@[j as int]);
            }
            assert(j - i == ws_len(rest));
        }
        if j >= v.len() {
            assert(fields_of(rest) =~= Seq::<Seq<char>>::empty());
            assert(strings_view(out@) + fields_of(rest) =~= strings_view(out@));
            i = j;
            assert(fields_of(v@.skip(i as int)) =~= Seq::<Seq<char>>::empty()) by {
                assert(v@.skip(i as int).len() == 0);
            }
            assert(strings_view(out@) + fields_of(v@.skip(i as int)) =~= strings_view(out@));
        } else {
            let ghost t = rest.skip(ws_len(rest) as int);
            assert(t =~= v@.skip(j as int));
            proof {
                lemma_word_len(t);
            }
            let mut k = j;
            while k < v.len() && !is_space_exec(v[k])
                invariant
                    j <= k <= v.len(),
                    t == v@.skip(j as int),
                    t.len() == v.len() - j,
                    forall|q: int| j <= q < k ==> !is_space(#[trigger] v@[q]),
                    k - j <= word_len(t),
                    word_len(t) <= t.len(),
                    word_len(t) < t.len() ==> is_space(t[word_len(t) as int]),
                decreases v.len() - k,
            {
                proof {
                    assert(t[k - j] == v@[k as int]);
                    assert(k - j < word_len(t));
                }
                k = k + 1;
            }
            proof {
                if (k - j) < word_len(t) {
                    assert(t[k - j] == v@[k as int]);
                }
                assert(k - j == word_len(t));
            }
            let word = sub_chars(&v, j, k);
            let ghost before = strings_view(out@);
            out.push(string_of(&word));
            assert(word@ =~= t.take(word_len(t) as int));
            assert(t.skip(word_len(t) as int) =~= v@.skip(k as int));
            assert(strings_view(out@) =~= before.push(word@));
            assert(fields_of(rest) == seq![word@] + fields_of(v@.skip(k as int)));
            assert(before + fields_of(rest) =~= strings_view(out@) + fields_of(v@.skip(k as int)));
            i = k;
        }
    }
    assert(fields_of(v@.skip(v.len() as int)) =~= Seq::<Seq<char>>::empty()) by {
        assert(v@.skip(v.len() as int).len() == 0);
    }
    assert(strings_view(out@) + fields_of(v@.skip(v.len() as int)) =~= strings_view(out@));
    out
}

/// The lines of `s`.
pub fn split_lines(s: &str) -> (r: Vec<String>)
    ensures
        strings_view(r@) == lines_of(s@),
{
    let v = chars_of(s);
    let mut parts: Vec<Vec<char>> = Vec::new();
    let mut start: usize = 0;
    let mut i: usize = 0;
    let ghost spec_parts = split_newlines(s@);
    assert(v@.skip(0) =~= v@);
    while i < v.len()
        invariant
            v@ == s@,
            start <= i <= v.len(),
            forall|t: int| start <= t < i ==> v@[t] != '\n',
            parts@.map_values(|p: Vec<char>| p@) + split_newlines(v@.skip(start as int))
                == split_newlines(s@),
        decreases v.len() - i,
    {
        if v[i] == '\n' {
            let ghost rest = v@.skip(start as int);
            proof {
                lemma_index_of(rest, '\n');
                assert(rest[i - start] == '\n');
                if index_of(rest, '\n') < 0 {
                    assert(false);
                }
                if index_of(rest, '\n') < i - start {
                    assert(rest[index_of(rest, '\n')] == v@[start + index_of(rest, '\n')]);
                }
                if index_of(rest, '\n') > i - start {
                    assert(rest[i - start] == v@[i as int]);
                }
                assert(index_of(rest, '\n') == i - start);
            }
            let piece = sub_chars(&v, start, i);
            let ghost before = parts@.map_values(|p: Vec<char>| p@);
            parts.push(piece);
            assert(parts@.map_values(|p: Vec<char>| p@) =~= before.push(piece@));
            assert(piece@ =~= rest.take(i - start));
            assert(rest.skip(i - start + 1) =~= v@.skip(i + 1));
            assert(split_newlines(rest) == seq![rest.take(i - start)] + split_newlines(v@.skip(i + 1)));
            assert(before + split_newlines(rest) =~= parts@.map_values(|p: Vec<char>| p@) + split_newlines(v@.skip(i + 1)));
            start = i + 1;
        }
        i = i + 1;
    }
    let ghost rest = v@.skip(start as int);
    proof {
        lemma_index_of(rest, '\n');
        if index_of(rest, '\n') >= 0 {
            assert(rest[index_of(rest, '\n')] == v@[start + index_of(rest, '\n')]);
        }
        assert(split_newlines(rest) == seq![rest]);
    }
    let last = sub_chars(&v, start, v.len());
    assert(last@ =~= rest);
    let ghost before = parts@.map_values(|p: Vec<char>| p@);
    parts.push(last);
    assert(parts@.map_values(|p: Vec<char>| p@) =~= split_newlines(s@)) by {
        assert(parts@.map_values(|p: Vec<char>| p@) =~= before.push(last@));
    }
    let n = if v.len() == 0 {
        0
    } else if v[v.len() - 1] == '\n' {
        parts.len() - 1
    } else {
        parts.len()
    };
    let ghost kept = if s@.len() == 0 {
        Seq::<Seq<char>>::empty()
    } else if s@.last() == '\n' {
        split_newlines(s@).drop_last()
    } else {
        split_newlines(s@)
    };
    assert(kept.len() == n);
    let mut out: Vec<String> = Vec::new();
    let mut k: usize = 0;
    while k < n
        invariant
            k <= n,
            n <= parts.len(),
            kept.len() == n,
            forall|q: int| 0 <= q < n ==> #[trigger] kept[q] == parts@[q]@,
            strings_view(out@) =~= kept.take(k as int).map_values(|l: Seq<char>| strip_cr(l)),
        decreases n - k,
    {
        let p = &parts[k];
        let line = if p.len() > 0 && p[p.len() - 1] == '\r' {
            sub_chars(p, 0, p.len() - 1)
        } else {
            sub_chars(p, 0, p.len())
        };
        assert(line@ =~= strip_cr(kept[k as int]));
        let ghost before = strings_view(out@);
        out.push(string_of(&line));
        assert(strings_view(out@) =~= before.push(line@));
        assert(kept.take(k + 1) =~= kept.take(k as int).push(kept[k as int]));
        k = k + 1;
    }
    assert(kept.take(n as int) =~= kept);
    out
}

/// Whether `s` starts with `prefix`.
pub fn starts_with(s: &str, prefix: &str) -> (r: bool)
    ensures
        r == (prefix@.len() <= s@.len() && s@.take(prefix@.len() as int) == prefix@),
{
    let n = prefix.unicode_len();
    let m = s.unicode_len();
    if n > m {
        return false;
    }
    let mut i: usize = 0;
    while i < n
        invariant
            n == prefix@.len(),
            m == s@.len(),
            n <= m,
            i <= n,
            forall|j: int| 0 <= j < i ==> s@[j] == prefix@[j],
        decreases n - i,
    {
        if s.get_char(i) != prefix.get_char(i) {
            assert(s@.take(n as int)[i as int] != prefix@[i as int]);
            return false;
        }
        i = i + 1;
    }
    assert(s@.take(n as int) =~= prefix@);
    true
}

/// Whether `s` ends with `suffix`.
pub fn ends_with(s: &str, suffix: &str) -> (r: bool)
    ensures
        r == (suffix@.len() <= s@.len() && s@.skip(s@.len() - suffix@.len()) == suffix@),
{
    let n = suffix.unicode_len();
    let m = s.unicode_len();
    if n > m {
        return false;
    }
    let off = m - n;
    let mut i: usize = 0;
    while i < n
        invariant
            n == suffix@.len(),
            m == s@.len(),
            off == m - n,
            i <= n,
            forall|j: int| 0 <= j < i ==> s@[off + j] == suffix@[j],
        decreases n - i,
    {
        if s.get_char(off + i) != suffix.get_char(i) {
            assert(s@.skip(off as int)[i as int] != suffix@[i as int]);
            return false;
        }
        i = i + 1;
    }
    assert(s@.skip(off as int) =~= suffix@);
    true
}

} // verus!
