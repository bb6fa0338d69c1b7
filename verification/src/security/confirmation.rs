//! The typed confirmation phrase required before a critical (delete or
//! format) operation executes.
//!
//! Compared after trimming and composing "O" + U+0308 (and the other
//! umlauts) into one code point, since the same visible phrase can arrive
//! with different code points depending on the input method.
use vstd::prelude::*;
use crate::flash::fat_names::{chars_of, string_of};
use crate::models::{str_eq, trim_str, trimmed};

verus! {

/// The German phrase, the default.
pub const PHRASE_DE: &'static str = "LÖSCHEN";
/// The English phrase.
pub const PHRASE_EN: &'static str = "DELETE";

/// The phrase for a UI language: English for `en`, German otherwise.
pub open spec fn spec_expected_phrase(language: Seq<char>) -> Seq<char> {
    if language == "en"@ {
        PHRASE_EN@
    } else {
        PHRASE_DE@
    }
}

pub fn expected_phrase(language: &str) -> (r: &'static str)
    ensures
        r@ == spec_expected_phrase(language@),
{
    if str_eq(language, "en") {
        PHRASE_EN
    } else {
        PHRASE_DE
    }
}

/// The precomposed letter for a base letter followed by U+0308, if
/// there is one among the umlauts.
pub open spec fn umlaut_of(c: char) -> Option<char> {
    if c == 'O' {
        Some('Ö')
    } else if c == 'o' {
        Some('ö')
    } else if c == 'U' {
        Some('Ü')
    } else if c == 'u' {
        Some('ü')
    } else if c == 'A' {
        Some('Ä')
    } else if c == 'a' {
        Some('ä')
    } else {
        None
    }
}

fn umlaut_of_exec(c: char) -> (r: Option<char>)
    ensures
        r == umlaut_of(c),
{
    if c == 'O' {
        Some('Ö')
    } else if c == 'o' {
        Some('ö')
    } else if c == 'U' {
        Some('Ü')
    } else if c == 'u' {
        Some('ü')
    } else if c == 'A' {
        Some('Ä')
    } else if c == 'a' {
        Some('ä')
    } else {
        None
    }
}

/// The text with every umlaut base letter followed by U+0308 replaced by
/// the precomposed letter, from left to right.
pub open spec fn composed(s: Seq<char>) -> Seq<char>
    decreases s.len(),
{
    if s.len() == 0 {
        Seq::empty()
    } else if s.len() >= 2 && s[1] == '\u{0308}' && umlaut_of(s[0]) is Some {
        seq![umlaut_of(s[0])->0] + composed(s.skip(2))
    } else {
        seq![s[0]] + composed(s.skip(1))
    }
}

/// Composes the umlauts of `s`.
pub fn nfc_compose(s: &str) -> (r: String)
    ensures
        r@ == composed(s@),
{
    let v = chars_of(s);
    let mut out: Vec<char> = Vec::new();
    let mut i: usize = 0;
    assert(v@.skip(0) =~= v@);
    while i < v.len()
        invariant
            i <= v.len(),
            v@ == s@,
            out@ + composed(v@.skip(i as int)) == composed(s@),
        decreases v.len() - i,
    {
        let c = v[i];
        let ghost rest = v@.skip(i as int);
        if i + 1 < v.len() && v[i + 1] == '\u{0308}' {
            match umlaut_of_exec(c) {
                Some(u) => {
                    assert(rest[0] == c && rest[1] == '\u{0308}');
                    assert(rest.skip(2) =~= v@.skip(i + 2));
                    let ghost before = out@;
                    out.push(u);
                    assert(before + composed(rest) =~= out@ + composed(v@.skip(i + 2)));
                    i = i + 2;
                    continue;
                },
                None => {},
            }
        }
        assert(rest[0] == c);
        assert(rest.skip(1) =~= v@.skip(i + 1));
        let ghost before = out@;
        out.push(c);
        assert(before + composed(rest) =~= out@ + composed(v@.skip(i + 1)));
        i = i + 1;
    }
    assert(out@ + composed(v@.skip(v.len() as int)) =~= out@);
    string_of(&out)
}

/// What a phrase is compared as: trimmed, umlauts composed.
pub open spec fn normalized(s: Seq<char>) -> Seq<char> {
    composed(trimmed(s))
}

pub fn normalize(s: &str) -> (r: String)
    ensures
        r@ == normalized(s@),
{
    let t = trim_str(s);
    nfc_compose(t.as_str())
}

/// Whether `input` is the confirmation phrase for `language`.
pub open spec fn spec_phrase_matches(input: Seq<char>, language: Seq<char>) -> bool {
    normalized(input) == normalized(spec_expected_phrase(language))
}

pub fn phrase_matches(input: &str, language: &str) -> (r: bool)
    ensures
        r == spec_phrase_matches(input@, language@),
{
    let a = normalize(input);
    let b = normalize(expected_phrase(language));
    str_eq(a.as_str(), b.as_str())
}

/// The expected phrase itself is always accepted.
pub proof fn lemma_expected_phrase_matches(language: Seq<char>)
    ensures
        spec_phrase_matches(spec_expected_phrase(language), language),
{
}

} // verus!
