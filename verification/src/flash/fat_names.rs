//! Names on a FAT volume: the volume label, 8.3 short names and the long
//! names kept in VFAT entries.
use vstd::prelude::*;
use vstd::set_lib::{lemma_int_range, lemma_len_subset, lemma_map_size, set_int_range};
use crate::models::{
    ascii_upper, ascii_upper_exec, ascii_uppercase, decimal, digit_char, is_space, is_space_exec,
    push_char, trail_spaces, trim_str, trimmed, lemma_trail_spaces, lead_spaces,
};

verus! {

/// The characters of `s`, one by one.
pub fn chars_of(s: &str) -> (r: Vec<char>)
    ensures
        r@ == s@,
{
    let len = s.unicode_len();
    let mut out: Vec<char> = Vec::new();
    let mut i: usize = 0;
    while i < len
        invariant
            len == s@.len(),
            i <= len,
            out@ == s@.take(i as int),
        decreases len - i,
    {
        out.push(s.get_char(i));
        assert(s@.take(i + 1) =~= s@.take(i as int).push(s@[i as int]));
        i = i + 1;
    }
    assert(s@.take(len as int) =~= s@);
    out
}

/// A `String` holding the given characters.
pub fn string_of(cs: &Vec<char>) -> (r: String)
    ensures
        r@ == cs@,
{
    let mut out = String::new();
    let mut i: usize = 0;
    while i < cs.len()
        invariant
            i <= cs.len(),
            out@ == cs@.take(i as int),
        decreases cs.len() - i,
    {
        push_char(&mut out, cs[i]);
        assert(cs@.take(i + 1) =~= cs@.take(i as int).push(cs@[i as int]));
        i = i + 1;
    }
    assert(cs@.take(cs.len() as int) =~= cs@);
    out
}

/// Characters allowed in an 8.3 name besides letters and digits.
pub open spec fn short_char(c: char) -> bool {
    ||| ('A' <= c <= 'Z')
    ||| ('0' <= c <= '9')
    ||| c == '!' || c == '#' || c == '$' || c == '%' || c == '&' || c == '\''
    ||| c == '(' || c == ')' || c == '-' || c == '@' || c == '^' || c == '_'
    ||| c == '`' || c == '{' || c == '}' || c == '~'
}

/// Whether `c` may stand in an 8.3 name: upper-case letters, digits and
/// `!#$%&'()-@^_`{}~`.
pub fn is_short_char(c: char) -> (r: bool)
    ensures
        r == short_char(c),
{
    ('A' <= c && c <= 'Z') || ('0' <= c && c <= '9') || c == '!' || c == '#' || c == '$' || c
        == '%' || c == '&' || c == '\'' || c == '(' || c == ')' || c == '-' || c == '@' || c
        == '^' || c == '_' || c == '`' || c == '{' || c == '}' || c == '~'
}

/// The byte a label character becomes: upper case, or `_` where FAT does
/// not allow it.
pub open spec fn label_byte(c: char) -> u8 {
    let u = ascii_upper(c);
    if u == ' ' || short_char(u) {
        u as u8
    } else {
        95u8
    }
}

/// The label's characters as they go onto the volume, at most eleven.
pub open spec fn label_chars(label: Seq<char>) -> Seq<u8> {
    let t = trimmed(label);
    let n = if t.len() < 11 {
        t.len()
    } else {
        11
    };
    t.take(n as int).map_values(|c: char| label_byte(c))
}

/// `n` space bytes.
pub open spec fn spaces(n: nat) -> Seq<u8> {
    Seq::new(n, |i: int| 32u8)
}

/// The label used when nothing usable is left of the requested one.
pub open spec fn default_label() -> Seq<u8> {
    seq![77u8, 79u8, 79u8, 78u8, 68u8, 73u8, 83u8, 75u8, 32u8, 32u8, 32u8]
}

/// The eleven label bytes for `label`.
pub open spec fn volume_label_bytes(label: Seq<char>) -> Seq<u8> {
    let c = label_chars(label);
    if forall|i: int| 0 <= i < c.len() ==> c[i] == 32u8 {
        default_label()
    } else {
        c + spaces((11 - c.len()) as nat)
    }
}

fn label_byte_exec(c: char) -> (r: u8)
    ensures
        r == label_byte(c),
{
    let u = ascii_upper_exec(c);
    if u == ' ' || is_short_char(u) {
        u as u8
    } else {
        95u8
    }
}

/// An 11-byte volume label: the trimmed label in upper case, only
/// characters FAT allows, padded with spaces; `MOONDISK` if nothing is
/// left.
pub fn volume_label(label: &str) -> (r: [u8; 11])
    ensures
        r@ == volume_label_bytes(label@),
{
    let t = trim_str(label);
    let tv = chars_of(t.as_str());
    let n: usize = if tv.len() < 11 {
        tv.len()
    } else {
        11
    };
    let ghost lc = label_chars(label@);
    let mut out: [u8; 11] = [32u8, 32u8, 32u8, 32u8, 32u8, 32u8, 32u8, 32u8, 32u8, 32u8, 32u8];
    let mut all_space = true;
    let mut i: usize = 0;
    proof {
        assert(lc.len() == n);
        assert(out@ =~= spaces(11));
    }
    while i < n
        invariant
            tv@ == trimmed(label@),
            n <= 11,
            lc == label_chars(label@),
            lc.len() == n,
            i <= n,
            out@ =~= lc.take(i as int) + spaces((11 - i) as nat),
            all_space == (forall|j: int| 0 <= j < i ==> lc[j] == 32u8),
        decreases n - i,
    {
        let b = label_byte_exec(tv[i]);
        assert(b == lc[i as int]);
        out[i] = b;
        if b != 32u8 {
            all_space = false;
        }
        assert(out@ =~= lc.take(i + 1) + spaces((11 - (i + 1)) as nat));
        i = i + 1;
    }
    assert(lc.take(n as int) =~= lc);
    if all_space {
        out = [77u8, 79u8, 79u8, 78u8, 68u8, 73u8, 83u8, 75u8, 32u8, 32u8, 32u8];
        assert(out@ =~= default_label());
    }
    out
}

/// The label as text, without the space padding.
pub open spec fn label_text(label: Seq<char>) -> Seq<char> {
    let cs = volume_label_bytes(label).map_values(|b: u8| b as char);
    cs.take(cs.len() - trail_spaces(cs))
}

/// A character a volume label byte can stand for.
pub open spec fn label_char(c: char) -> bool {
    c == ' ' || short_char(c)
}

proof fn lemma_label_byte(c: char)
    ensures
        label_char(label_byte(c) as char),
        (label_byte(c) as char) as u8 == label_byte(c),
        !is_space(c) ==> label_byte(c) != 32u8,
        label_char(c) ==> label_byte(c) == c as u8 && (c as u8) as char == c,
{
    let u = ascii_upper(c);
    if 'a' <= c <= 'z' {
        assert('A' <= u <= 'Z');
    }
}

proof fn lemma_label_bytes(label: Seq<char>)
    ensures
        volume_label_bytes(label).len() == 11,
        forall|i: int| 0 <= i < 11 ==> label_char(#[trigger] volume_label_bytes(label)[i] as char)
            && (volume_label_bytes(label)[i] as char) as u8 == volume_label_bytes(label)[i],
        volume_label_bytes(label)[0] != 32u8,
{
    let c = label_chars(label);
    let t = trimmed(label);
    let b = volume_label_bytes(label);
    if forall|i: int| 0 <= i < c.len() ==> c[i] == 32u8 {
        assert(b == default_label());
        reveal_with_fuel(short_char, 1);
    } else {
        assert(b == c + spaces((11 - c.len()) as nat));
        assert forall|i: int| 0 <= i < 11 implies label_char(#[trigger] b[i] as char) && (b[i] as char) as u8 == b[i] by {
            if i < c.len() {
                lemma_label_byte(t[i]);
            }
        }
        assert(t.len() > 0);
        let a = label.skip(lead_spaces(label) as int);
        crate::models::lemma_lead_spaces(label);
        crate::models::lemma_trail_spaces(a);
        assert(t[0] == a[0]);
        assert(a[0] == label[lead_spaces(label) as int]);
        lemma_label_byte(t[0]);
    }
}

/// Applying the label rules to a label they produced changes nothing:
/// the label text of a label text is itself. A label text is 1 to 11
/// ASCII characters, without a space at either end.
pub proof fn lemma_label_text_idempotent(label: Seq<char>)
    ensures
        label_text(label_text(label)) == label_text(label),
        1 <= label_text(label).len() <= 11,
        forall|i: int| 0 <= i < label_text(label).len() ==> #[trigger] label_text(label)[i] < '\u{80}',
        label_text(label)[0] != ' ',
        label_text(label).last() != ' ',
{
    let b = volume_label_bytes(label);
    lemma_label_bytes(label);
    let cs = b.map_values(|x: u8| x as char);
    let n = cs.len() - trail_spaces(cs);
    let l = cs.take(n);
    crate::models::lemma_trail_spaces(cs);
    assert(l == label_text(label));
    assert forall|i: int| 0 <= i < 11 implies label_char(#[trigger] cs[i]) && is_space(cs[i]) == (cs[i] == ' ')
        && cs[i] as u8 == b[i] && cs[i] < '\u{80}' by {
        assert(cs[i] == b[i] as char);
    }
    assert forall|i: int| 0 <= i < l.len() implies #[trigger] l[i] < '\u{80}' by {
        assert(l[i] == cs[i]);
    }
    // The text neither starts nor ends with a space.
    assert(!is_space(cs[0])) by {
        assert(cs[0] as u8 == b[0]);
    }
    assert(n >= 1);
    assert(!is_space(l[0]));
    assert(!is_space(l.last()));
    assert(lead_spaces(l) == 0);
    assert(trail_spaces(l) == 0);
    assert(l.skip(0) =~= l);
    assert(l.take(l.len() as int) =~= l);
    assert(trimmed(l) == l);
    let c2 = label_chars(l);
    assert(c2 =~= b.take(n)) by {
        assert(l.take(n) =~= l);
        assert forall|i: int| 0 <= i < n implies #[trigger] c2[i] == b.take(n)[i] by {
            lemma_label_byte(l[i]);
        }
    }
    assert(!(forall|i: int| 0 <= i < c2.len() ==> c2[i] == 32u8)) by {
        assert(c2[0] == b[0]);
    }
    assert(volume_label_bytes(l) =~= b) by {
        assert forall|i: int| n <= i < 11 implies #[trigger] b[i] == 32u8 by {
            assert(is_space(cs[i]));
        }
    }
}

/// The label that `volume_label` writes, as text without its padding.
pub fn volume_label_text(label: &str) -> (r: String)
    ensures
        r@ == label_text(label@),
{
    let bytes = volume_label(label);
    let ghost cs = volume_label_bytes(label@).map_values(|b: u8| b as char);
    let mut chars: Vec<char> = Vec::new();
    let mut i: usize = 0;
    while i < 11
        invariant
            bytes@ == volume_label_bytes(label@),
            bytes@.len() == 11,
            cs == volume_label_bytes(label@).map_values(|b: u8| b as char),
            i <= 11,
            chars@ =~= cs.take(i as int),
        decreases 11 - i,
    {
        chars.push(bytes[i] as char);
        i = i + 1;
    }
    assert(cs.take(11) =~= cs);
    let mut end: usize = 11;
    while end > 0 && is_space_exec(chars[end - 1])
        invariant
            chars@ == cs,
            cs.len() == 11,
            end <= 11,
            forall|j: int| end <= j < 11 ==> is_space(#[trigger] cs[j]),
        decreases end,
    {
        end = end - 1;
    }
    proof {
        lemma_trail_spaces(cs);
        let t = trail_spaces(cs);
        if (t as int) < 11 - end {
            assert(!is_space(cs[11 - t - 1]));
        }
        if (t as int) > 11 - end {
            assert(is_space(cs[end - 1]));
        }
    }
    let mut kept: Vec<char> = Vec::new();
    let mut k: usize = 0;
    while k < end
        invariant
            chars@ == cs,
            cs.len() == 11,
            end <= 11,
            k <= end,
            kept@ =~= cs.take(k as int),
        decreases end - k,
    {
        kept.push(chars[k]);
        k = k + 1;
    }
    string_of(&kept)
}


/// Index of the last `c` in `s`, or -1 where there is none.
pub open spec fn last_index(s: Seq<char>, c: char) -> int
    decreases s.len(),
{
    if s.len() == 0 {
        -1
    } else if s.last() == c {
        s.len() - 1
    } else {
        last_index(s.drop_last(), c)
    }
}

pub proof fn lemma_last_index(s: Seq<char>, c: char)
    ensures
        -1 <= last_index(s, c) < s.len(),
        last_index(s, c) >= 0 ==> s[last_index(s, c)] == c,
        forall|j: int| last_index(s, c) < j < s.len() ==> s[j] != c,
    decreases s.len(),
{
    if s.len() > 0 && s.last() != c {
        lemma_last_index(s.drop_last(), c);
        assert forall|j: int| last_index(s, c) < j < s.len() implies s[j] != c by {
            if j < s.len() - 1 {
                assert(s[j] == s.drop_last()[j]);
            }
        }
    }
}

fn last_index_exec(s: &Vec<char>, c: char) -> (r: Option<usize>)
    ensures
        match r {
            Some(i) => i == last_index(s@, c),
            None => last_index(s@, c) == -1,
        },
{
    let mut i = s.len();
    assert(s@.take(i as int) =~= s@);
    while i > 0
        invariant
            i <= s.len(),
            last_index(s@, c) == last_index(s@.take(i as int), c),
        decreases i,
    {
        if s[i - 1] == c {
            return Some(i - 1);
        }
        assert(s@.take(i as int).drop_last() =~= s@.take(i - 1));
        i = i - 1;
    }
    None
}

/// The part of a name before its last dot (all of it without a dot).
pub open spec fn before_last_dot(s: Seq<char>) -> Seq<char> {
    let i = last_index(s, '.');
    if i >= 0 {
        s.take(i)
    } else {
        s
    }
}

/// The part of a name after its last dot (nothing without a dot).
pub open spec fn after_last_dot(s: Seq<char>) -> Seq<char> {
    let i = last_index(s, '.');
    if i >= 0 {
        s.skip(i + 1)
    } else {
        Seq::empty()
    }
}

/// A name that is already a valid 8.3 name.
pub open spec fn fits_short(base: Seq<char>, ext: Seq<char>) -> bool {
    &&& 0 < base.len() <= 8
    &&& ext.len() <= 3
    &&& forall|i: int| 0 <= i < base.len() ==> short_char(#[trigger] base[i])
    &&& forall|i: int| 0 <= i < ext.len() ==> short_char(#[trigger] ext[i])
}

/// An 8.3 name as stored: base padded to eight bytes, extension to three.
pub open spec fn packed(base: Seq<char>, ext: Seq<char>) -> Seq<u8> {
    Seq::new(
        11,
        |i: int|
            if i < 8 {
                if i < base.len() {
                    base[i] as u8
                } else {
                    32u8
                }
            } else if i - 8 < ext.len() {
                ext[i - 8] as u8
            } else {
                32u8
            },
    )
}

/// Number of leading dots.
pub open spec fn lead_dots(s: Seq<char>) -> nat
    decreases s.len(),
{
    if s.len() > 0 && s[0] == '.' {
        1 + lead_dots(s.drop_first())
    } else {
        0
    }
}

/// A character kept in a lossy short name.
pub open spec fn clean_char(c: char) -> char {
    if short_char(c) {
        c
    } else {
        '_'
    }
}

/// Drops spaces and dots and replaces what 8.3 names don't allow by `_`.
pub open spec fn clean(s: Seq<char>) -> Seq<char>
    decreases s.len(),
{
    if s.len() == 0 {
        Seq::empty()
    } else {
        let p = clean(s.drop_last());
        let c = s.last();
        if c == ' ' || c == '.' {
            p
        } else {
            p.push(clean_char(c))
        }
    }
}

/// The upper-case name without its leading dots.
pub open spec fn undotted(upper: Seq<char>) -> Seq<char> {
    upper.skip(lead_dots(upper) as int)
}

/// Base of the lossy short name: never empty.
pub open spec fn lossy_base(upper: Seq<char>) -> Seq<char> {
    let b = clean(before_last_dot(undotted(upper)));
    if b.len() == 0 {
        seq!['_']
    } else {
        b
    }
}

/// Extension of the lossy short name: at most three characters.
pub open spec fn lossy_ext(upper: Seq<char>) -> Seq<char> {
    let e = clean(after_last_dot(undotted(upper)));
    if e.len() <= 3 {
        e
    } else {
        e.take(3)
    }
}

/// The `~n` tail of a numbered short name.
pub open spec fn tail(n: nat) -> Seq<char> {
    seq!['~'] + decimal(n)
}

/// Tails are tried for `n` below this; the tail must fit eight characters.
pub const MAX_TAIL: u64 = 10000000;

/// The short name with tail `~n`: as much of the base as leaves room.
pub open spec fn numbered(base: Seq<char>, ext: Seq<char>, n: nat) -> Seq<u8> {
    let t = tail(n);
    let keep = 8 - t.len();
    let k = if base.len() < keep {
        base.len() as int
    } else {
        keep
    };
    packed(base.take(k) + t, ext)
}

/// The stored forms of the names already used.
pub open spec fn views(taken: Seq<[u8; 11]>) -> Seq<Seq<u8>> {
    taken.map_values(|a: [u8; 11]| a@)
}

/// The first tail number from `n` on whose name is not taken, or
/// `MAX_TAIL` where all are.
pub open spec fn first_free(base: Seq<char>, ext: Seq<char>, taken: Seq<Seq<u8>>, n: nat) -> nat
    decreases MAX_TAIL - n,
{
    if n >= MAX_TAIL {
        MAX_TAIL as nat
    } else if !taken.contains(numbered(base, ext, n)) {
        n
    } else {
        first_free(base, ext, taken, n + 1)
    }
}

/// The 8.3 name `short_name` picks for `name` among the names `taken`,
/// and whether a long name entry must keep the real name.
pub open spec fn short_name_of(name: Seq<char>, taken: Seq<Seq<u8>>) -> (Seq<u8>, bool) {
    let upper = ascii_uppercase(name);
    let base = before_last_dot(upper);
    let ext = after_last_dot(upper);
    if fits_short(base, ext) && !taken.contains(packed(base, ext)) {
        (packed(base, ext), upper != name)
    } else {
        (numbered(lossy_base(upper), lossy_ext(upper), first_free(lossy_base(upper), lossy_ext(upper), taken, 1)), true)
    }
}

/// A name `short_name` can give: it fits as it is, or some numbered
/// form is still free.
pub open spec fn short_name_possible(name: Seq<char>, taken: Seq<Seq<u8>>) -> bool {
    let upper = ascii_uppercase(name);
    let base = before_last_dot(upper);
    let ext = after_last_dot(upper);
    ||| fits_short(base, ext) && !taken.contains(packed(base, ext))
    ||| first_free(lossy_base(upper), lossy_ext(upper), taken, 1) < MAX_TAIL
}


fn upper_chars(v: &Vec<char>) -> (r: Vec<char>)
    ensures
        r@ == ascii_uppercase(v@),
{
    let mut out: Vec<char> = Vec::new();
    let mut i: usize = 0;
    while i < v.len()
        invariant
            i <= v.len(),
            out@ =~= ascii_uppercase(v@.take(i as int)),
        decreases v.len() - i,
    {
        out.push(ascii_upper_exec(v[i]));
        assert(v@.take(i + 1) =~= v@.take(i as int).push(v@[i as int]));
        i = i + 1;
    }
    assert(v@.take(v.len() as int) =~= v@);
    out
}

fn slice_chars(v: &Vec<char>, from: usize, to: usize) -> (r: Vec<char>)
    requires
        from <= to <= v.len(),
    ensures
        r@ == v@.subrange(from as int, to as int),
{
    let mut out: Vec<char> = Vec::new();
    let mut i = from;
    while i < to
        invariant
            from <= i <= to <= v.len(),
            out@ =~= v@.subrange(from as int, i as int),
        decreases to - i,
    {
        out.push(v[i]);
        i = i + 1;
    }
    out
}

fn chars_eq(a: &Vec<char>, b: &Vec<char>) -> (r: bool)
    ensures
        r == (a@ == b@),
{
    if a.len() != b.len() {
        return false;
    }
    let mut i: usize = 0;
    while i < a.len()
        invariant
            a.len() == b.len(),
            i <= a.len(),
            forall|j: int| 0 <= j < i ==> a@[j] == b@[j],
        decreases a.len() - i,
    {
        if a[i] != b[i] {
            return false;
        }
        i = i + 1;
    }
    assert(a@ =~= b@);
    true
}

fn all_short(v: &Vec<char>) -> (r: bool)
    ensures
        r == (forall|i: int| 0 <= i < v@.len() ==> short_char(#[trigger] v@[i])),
{
    let mut i: usize = 0;
    while i < v.len()
        invariant
            i <= v.len(),
            forall|j: int| 0 <= j < i ==> short_char(#[trigger] v@[j]),
        decreases v.len() - i,
    {
        if !is_short_char(v[i]) {
            return false;
        }
        i = i + 1;
    }
    true
}

fn split_at_last_dot(v: &Vec<char>) -> (r: (Vec<char>, Vec<char>))
    ensures
        r.0@ == before_last_dot(v@),
        r.1@ == after_last_dot(v@),
{
    proof {
        lemma_last_index(v@, '.');
    }
    match last_index_exec(v, '.') {
        Some(i) => {
            assert(i < v.len());
            (slice_chars(v, 0, i), slice_chars(v, i + 1, v.len()))
        },
        None => {
            let e: Vec<char> = Vec::new();
            (slice_chars(v, 0, v.len()), e)
        },
    }
}

/// Packs a base and an extension into the 11 bytes of an 8.3 name.
fn pack_short(base: &Vec<char>, ext: &Vec<char>) -> (r: [u8; 11])
    ensures
        r@ == packed(base@, ext@),
{
    let mut out: [u8; 11] = [32u8, 32u8, 32u8, 32u8, 32u8, 32u8, 32u8, 32u8, 32u8, 32u8, 32u8];
    let mut i: usize = 0;
    while i < 11
        invariant
            i <= 11,
            out@.len() == 11,
            forall|j: int| 0 <= j < i ==> out@[j] == #[trigger] packed(base@, ext@)[j],
            forall|j: int| i <= j < 11 ==> out@[j] == 32u8,
        decreases 11 - i,
    {
        if i < 8 {
            if i < base.len() {
                out[i] = base[i] as u8;
            }
        } else if i - 8 < ext.len() {
            out[i] = ext[i - 8] as u8;
        }
        i = i + 1;
    }
    assert(out@ =~= packed(base@, ext@));
    out
}

fn lead_dots_exec(v: &Vec<char>) -> (r: usize)
    ensures
        r == lead_dots(v@),
        r <= v.len(),
{
    let mut i: usize = 0;
    assert(v@.skip(0) =~= v@);
    while i < v.len() && v[i] == '.'
        invariant
            i <= v.len(),
            lead_dots(v@) == i + lead_dots(v@.skip(i as int)),
        decreases v.len() - i,
    {
        assert(v@.skip(i as int).drop_first() =~= v@.skip(i + 1));
        i = i + 1;
    }
    i
}

fn clean_exec(v: &Vec<char>) -> (r: Vec<char>)
    ensures
        r@ == clean(v@),
{
    let mut out: Vec<char> = Vec::new();
    let mut i: usize = 0;
    while i < v.len()
        invariant
            i <= v.len(),
            out@ == clean(v@.take(i as int)),
        decreases v.len() - i,
    {
        let c = v[i];
        assert(v@.take(i + 1).drop_last() =~= v@.take(i as int));
        if c != ' ' && c != '.' {
            if is_short_char(c) {
                out.push(c);
            } else {
                out.push('_');
            }
        }
        i = i + 1;
    }
    assert(v@.take(v.len() as int) =~= v@);
    out
}

fn contains_name(taken: &Vec<[u8; 11]>, name: &[u8; 11]) -> (r: bool)
    ensures
        r == views(taken@).contains(name@),
{
    let mut i: usize = 0;
    while i < taken.len()
        invariant
            i <= taken.len(),
            forall|j: int| 0 <= j < i ==> taken@[j]@ != name@,
        decreases taken.len() - i,
    {
        let t = &taken[i];
        let mut same = true;
        let mut k: usize = 0;
        while k < 11
            invariant
                k <= 11,
                t@.len() == 11,
                name@.len() == 11,
                same == (forall|j: int| 0 <= j < k ==> t@[j] == name@[j]),
            decreases 11 - k,
        {
            if t[k] != name[k] {
                same = false;
            }
            k = k + 1;
        }
        if same {
            assert(t@ =~= name@);
            assert(views(taken@)[i as int] == name@);
            return true;
        }
        i = i + 1;
    }
    proof {
        if views(taken@).contains(name@) {
            let j = choose|j: int| 0 <= j < views(taken@).len() && views(taken@)[j] == name@;
            assert(taken@[j]@ == name@);
        }
    }
    false
}

fn push_digits(out: &mut Vec<char>, n: u64)
    ensures
        final(out)@ == old(out)@ + decimal(n as nat),
    decreases n,
{
    if n < 10 {
        out.push(digit_exec(n));
    } else {
        push_digits(out, n / 10);
        out.push(digit_exec(n % 10));
        assert(old(out)@ + decimal(n as nat) =~= old(out)@ + decimal((n / 10) as nat) + seq![digit_char((n % 10) as nat)]);
    }
}

fn digit_exec(d: u64) -> (c: char)
    requires
        d < 10,
    ensures
        c == digit_char(d as nat),
{
    if d == 0 { '0' }
    else if d == 1 { '1' }
    else if d == 2 { '2' }
    else if d == 3 { '3' }
    else if d == 4 { '4' }
    else if d == 5 { '5' }
    else if d == 6 { '6' }
    else if d == 7 { '7' }
    else if d == 8 { '8' }
    else { '9' }
}

fn numbered_exec(base: &Vec<char>, ext: &Vec<char>, n: u64) -> (r: [u8; 11])
    requires
        1 <= n < MAX_TAIL,
    ensures
        r@ == numbered(base@, ext@, n as nat),
{
    let mut t: Vec<char> = Vec::new();
    t.push('~');
    push_digits(&mut t, n);
    assert(t@ =~= tail(n as nat));
    proof {
        lemma_decimal_len_bound(n as nat);
    }
    let keep = 8 - t.len();
    let k = if base.len() < keep {
        base.len()
    } else {
        keep
    };
    let mut name = slice_chars(base, 0, k);
    let mut i: usize = 0;
    while i < t.len()
        invariant
            i <= t.len(),
            k <= base.len(),
            name@ =~= base@.take(k as int) + t@.take(i as int),
        decreases t.len() - i,
    {
        name.push(t[i]);
        i = i + 1;
    }
    assert(t@.take(t.len() as int) =~= t@);
    pack_short(&name, ext)
}

/// Number of decimal digits of `n`.
pub open spec fn digit_count(n: nat) -> nat
    decreases n,
{
    if n < 10 {
        1
    } else {
        1 + digit_count(n / 10)
    }
}

pub proof fn lemma_decimal_len(n: nat)
    ensures
        decimal(n).len() == digit_count(n),
        forall|i: int| 0 <= i < decimal(n).len() ==> '0' <= #[trigger] decimal(n)[i] <= '9',
    decreases n,
{
    if n >= 10 {
        lemma_decimal_len(n / 10);
    }
}

pub proof fn lemma_decimal_len_bound(n: nat)
    requires
        n < MAX_TAIL,
    ensures
        decimal(n).len() <= 7,
        n >= 1000000 ==> decimal(n).len() == 7,
{
    lemma_decimal_len(n);
    lemma_decimal_len(n / 10);
    lemma_decimal_len(n / 100);
    lemma_decimal_len(n / 1000);
    lemma_decimal_len(n / 10000);
    lemma_decimal_len(n / 100000);
    lemma_decimal_len(n / 1000000);
    assert(n / 10 / 10 == n / 100);
    assert(n / 100 / 10 == n / 1000);
    assert(n / 1000 / 10 == n / 10000);
    assert(n / 10000 / 10 == n / 100000);
    assert(n / 100000 / 10 == n / 1000000);
}

pub proof fn lemma_digit_char_injective(a: nat, b: nat)
    requires
        a < 10,
        b < 10,
        digit_char(a) == digit_char(b),
    ensures
        a == b,
{
}

pub proof fn lemma_decimal_injective(a: nat, b: nat)
    requires
        decimal(a) == decimal(b),
    ensures
        a == b,
    decreases a,
{
    lemma_decimal_len(a);
    lemma_decimal_len(b);
    if a < 10 && b < 10 {
        assert(decimal(a)[0] == digit_char(a));
        assert(decimal(b)[0] == digit_char(b));
        lemma_digit_char_injective(a, b);
    } else if a < 10 {
        lemma_decimal_len(b / 10);
        assert(decimal(b).len() >= 2);
    } else if b < 10 {
        lemma_decimal_len(a / 10);
        assert(decimal(a).len() >= 2);
    } else {
        assert(decimal(a).last() == digit_char(a % 10));
        assert(decimal(b).last() == digit_char(b % 10));
        lemma_digit_char_injective(a % 10, b % 10);
        assert(decimal(a).drop_last() =~= decimal(a / 10));
        assert(decimal(b).drop_last() =~= decimal(b / 10));
        lemma_decimal_injective(a / 10, b / 10);
    }
}

/// Seven-digit tails give pairwise different names.
pub proof fn lemma_numbered_injective(base: Seq<char>, ext: Seq<char>, m1: nat, m2: nat)
    requires
        1000000 <= m1 < MAX_TAIL,
        1000000 <= m2 < MAX_TAIL,
        numbered(base, ext, m1) == numbered(base, ext, m2),
    ensures
        m1 == m2,
{
    lemma_decimal_len_bound(m1);
    lemma_decimal_len_bound(m2);
    lemma_decimal_len(m1);
    lemma_decimal_len(m2);
    let d1 = decimal(m1);
    let d2 = decimal(m2);
    assert(tail(m1).len() == 8);
    assert(tail(m2).len() == 8);
    assert(base.take(0) + tail(m1) =~= tail(m1));
    assert(base.take(0) + tail(m2) =~= tail(m2));
    assert(numbered(base, ext, m1) == packed(tail(m1), ext));
    assert(numbered(base, ext, m2) == packed(tail(m2), ext));
    assert forall|i: int| 0 <= i < 7 implies d1[i] == d2[i] by {
        assert(packed(tail(m1), ext)[i + 1] == packed(tail(m2), ext)[i + 1]);
        assert(tail(m1)[i + 1] == d1[i]);
        assert(tail(m2)[i + 1] == d2[i]);
        assert('0' <= d1[i] <= '9');
        assert('0' <= d2[i] <= '9');
        lemma_digit_byte(d1[i]);
        lemma_digit_byte(d2[i]);
    }
    assert(d1 =~= d2);
    lemma_decimal_injective(m1, m2);
}

/// A digit's byte is its code.
pub proof fn lemma_digit_byte(c: char)
    requires
        '0' <= c <= '9',
    ensures
        (c as u8) as u32 == c as u32,
{
}

pub proof fn lemma_first_free(base: Seq<char>, ext: Seq<char>, taken: Seq<Seq<u8>>, n: nat)
    ensures
        first_free(base, ext, taken, n) <= MAX_TAIL,
        n <= MAX_TAIL ==> n <= first_free(base, ext, taken, n),
        first_free(base, ext, taken, n) < MAX_TAIL ==> !taken.contains(
            numbered(base, ext, first_free(base, ext, taken, n)),
        ),
    decreases MAX_TAIL - n,
{
    if n < MAX_TAIL && taken.contains(numbered(base, ext, n)) {
        lemma_first_free(base, ext, taken, n + 1);
    }
}

pub proof fn lemma_first_free_all_taken(base: Seq<char>, ext: Seq<char>, taken: Seq<Seq<u8>>, n: nat, m: nat)
    requires
        first_free(base, ext, taken, n) == MAX_TAIL,
        n <= m < MAX_TAIL,
    ensures
        taken.contains(numbered(base, ext, m)),
    decreases m - n,
{
    if n < m {
        lemma_first_free_all_taken(base, ext, taken, n + 1, m);
    }
}

/// Fewer taken names than seven-digit tails: some numbered name is free.
pub proof fn lemma_short_name_room(base: Seq<char>, ext: Seq<char>, taken: Seq<Seq<u8>>)
    requires
        taken.len() < 9000000,
    ensures
        first_free(base, ext, taken, 1) < MAX_TAIL,
{
    lemma_first_free(base, ext, taken, 1);
    if first_free(base, ext, taken, 1) == MAX_TAIL {
        let f = |m: int| numbered(base, ext, m as nat);
        let dom = set_int_range(1000000, 10000000);
        lemma_int_range(1000000, 10000000);
        assert(vstd::relations::injective_on(f, dom)) by {
            assert forall|x: int, y: int| dom.contains(x) && dom.contains(y) && #[trigger] f(x) == #[trigger] f(y) implies x == y by {
                lemma_numbered_injective(base, ext, x as nat, y as nat);
            }
        }
        let img = dom.map(f);
        lemma_map_size(dom, img, f);
        assert(img.subset_of(taken.to_set())) by {
            assert forall|v: Seq<u8>| img.contains(v) implies taken.to_set().contains(v) by {
                let x = choose|x: int| dom.contains(x) && f(x) == v;
                lemma_first_free_all_taken(base, ext, taken, 1, x as nat);
            }
        }
        taken.lemma_cardinality_of_set();
        lemma_len_subset(img, taken.to_set());
        assert(dom.len() == 9000000);
        assert(img.len() == 9000000);
        assert(false);
    }
}


/// The 8.3 names of one directory's long names, in order, each picked
/// among those before it, with whether it needs a long entry.
pub open spec fn short_names(longs: Seq<Seq<char>>) -> Seq<(Seq<u8>, bool)>
    decreases longs.len(),
{
    if longs.len() == 0 {
        Seq::empty()
    } else {
        let prev = short_names(longs.drop_last());
        prev.push(short_name_of(longs.last(), shorts_taken(prev)))
    }
}

/// The 8.3 names alone.
pub open spec fn shorts_taken(s: Seq<(Seq<u8>, bool)>) -> Seq<Seq<u8>> {
    s.map_values(|p: (Seq<u8>, bool)| p.0)
}

pub proof fn lemma_short_names_prefix(longs: Seq<Seq<char>>, i: int)
    requires
        0 <= i <= longs.len(),
    ensures
        short_names(longs).len() == longs.len(),
        short_names(longs.take(i)) == short_names(longs).take(i),
    decreases longs.len(),
{
    if longs.len() > 0 {
        lemma_short_names_prefix(longs.drop_last(), 0);
        if i < longs.len() {
            assert(longs.drop_last().take(i) =~= longs.take(i));
            lemma_short_names_prefix(longs.drop_last(), i);
            assert(short_names(longs).take(i) =~= short_names(longs.drop_last()).take(i));
        } else {
            assert(longs.take(i) =~= longs);
            assert(short_names(longs).take(i) =~= short_names(longs));
        }
    } else {
        assert(longs.take(i) =~= longs);
        assert(short_names(longs).take(i) =~= short_names(longs));
    }
}

/// The 8.3 name picked for a name is never one already taken, so the
/// names of one directory stay distinct.
pub proof fn lemma_short_name_is_free(name: Seq<char>, taken: Seq<Seq<u8>>)
    requires
        short_name_possible(name, taken),
    ensures
        !taken.contains(short_name_of(name, taken).0),
{
    let upper = ascii_uppercase(name);
    lemma_first_free(lossy_base(upper), lossy_ext(upper), taken, 1);
}

/// The 8.3 name for `name`, not among `taken` (which gets it), and
/// whether a long name entry is needed to keep the real name (lower case,
/// too long, characters 8.3 names don't allow).
///
/// A name that fits 8.3 as it is keeps it; otherwise the base keeps the
/// allowed characters and gets a `~n` tail, with the first `n` whose name
/// is free.
pub fn short_name(name: &str, taken: &mut Vec<[u8; 11]>) -> (r: ([u8; 11], bool))
    requires
        short_name_possible(name@, views(old(taken)@)),
    ensures
        (r.0@, r.1) == short_name_of(name@, views(old(taken)@)),
        views(final(taken)@) == views(old(taken)@).push(r.0@),
        !views(old(taken)@).contains(r.0@),
{
    let ghost t0 = views(taken@);
    proof {
        lemma_short_name_is_free(name@, t0);
    }
    let nv = chars_of(name);
    let upper = upper_chars(&nv);
    let (base, ext) = split_at_last_dot(&upper);
    if base.len() > 0 && base.len() <= 8 && ext.len() <= 3 && all_short(&base) && all_short(&ext) {
        let short = pack_short(&base, &ext);
        if !contains_name(taken, &short) {
            taken.push(short);
            assert(views(taken@) =~= t0.push(short@));
            return (short, !chars_eq(&upper, &nv));
        }
    }
    let dots = lead_dots_exec(&upper);
    let undot = slice_chars(&upper, dots, upper.len());
    assert(undot@ =~= undotted(upper@));
    let (b0, e0) = split_at_last_dot(&undot);
    let b1 = clean_exec(&b0);
    let lb = if b1.len() == 0 {
        let mut u: Vec<char> = Vec::new();
        u.push('_');
        assert(u@ =~= seq!['_']);
        u
    } else {
        b1
    };
    let e1 = clean_exec(&e0);
    let le = if e1.len() <= 3 {
        e1
    } else {
        slice_chars(&e1, 0, 3)
    };
    assert(lb@ == lossy_base(upper@));
    assert(le@ == lossy_ext(upper@));
    let mut n: u64 = 1;
    proof {
        if !(first_free(lb@, le@, t0, 1) < MAX_TAIL) {
            assert(fits_short(before_last_dot(upper@), after_last_dot(upper@)) && !t0.contains(
                packed(before_last_dot(upper@), after_last_dot(upper@)),
            ));
        }
    }
    while n < 10000000
        invariant
            1 <= n <= MAX_TAIL,
            views(taken@) == t0,
            t0 == views(old(taken)@),
            upper@ == ascii_uppercase(name@),
            lb@ == lossy_base(upper@),
            le@ == lossy_ext(upper@),
            !(fits_short(before_last_dot(upper@), after_last_dot(upper@)) && !t0.contains(
                packed(before_last_dot(upper@), after_last_dot(upper@)),
            )),
            first_free(lb@, le@, t0, 1) == first_free(lb@, le@, t0, n as nat),
            first_free(lb@, le@, t0, 1) < MAX_TAIL,
        decreases MAX_TAIL - n,
    {
        let cand = numbered_exec(&lb, &le, n);
        if !contains_name(taken, &cand) {
            taken.push(cand);
            assert(views(taken@) =~= t0.push(cand@));
            return (cand, true);
        }
        n = n + 1;
    }
    proof {
        assert(first_free(lb@, le@, t0, MAX_TAIL as nat) == MAX_TAIL);
    }
    let unreachable: [u8; 11] = [32u8, 32u8, 32u8, 32u8, 32u8, 32u8, 32u8, 32u8, 32u8, 32u8, 32u8];
    (unreachable, true)
}


/// What `str::to_lowercase` gives for a text: its Unicode lower case.
pub uninterp spec fn unicode_lowercase(s: Seq<char>) -> Seq<char>;

/// Calls `str::to_lowercase`, whose result std defines by the Unicode
/// `Lowercase` mapping of the text; the contract only names it.
#[verifier::external_body]
fn to_lowercase(s: &str) -> (r: String)
    ensures
        r@ == unicode_lowercase(s@),
{
    s.to_lowercase()
}

/// Characters a long FAT name can't hold.
pub open spec fn bad_long_char(c: char) -> bool {
    c < ' ' || c == '"' || c == '*' || c == '/' || c == ':' || c == '<' || c == '>' || c == '?'
        || c == '\\' || c == '|'
}

fn is_bad_long_char(c: char) -> (r: bool)
    ensures
        r == bad_long_char(c),
{
    c < ' ' || c == '"' || c == '*' || c == '/' || c == ':' || c == '<' || c == '>' || c == '?'
        || c == '\\' || c == '|'
}

/// Number of trailing dots and spaces.
pub open spec fn trail_dots(s: Seq<char>) -> nat
    decreases s.len(),
{
    if s.len() > 0 && (s.last() == '.' || s.last() == ' ') {
        1 + trail_dots(s.drop_last())
    } else {
        0
    }
}

/// UTF-16 code units of a character.
pub open spec fn units(c: char) -> nat {
    if (c as u32) >= 0x10000 {
        2
    } else {
        1
    }
}

/// Length of a text in UTF-16 code units.
pub open spec fn utf16_len(s: Seq<char>) -> nat
    decreases s.len(),
{
    if s.len() == 0 {
        0
    } else {
        utf16_len(s.drop_last()) + units(s.last())
    }
}

/// The first `budget` UTF-16 units of a text, decoded again: a character
/// cut in half becomes U+FFFD.
pub open spec fn truncate_units(s: Seq<char>, budget: int) -> Seq<char>
    decreases s.len(),
{
    if s.len() == 0 || budget <= 0 {
        Seq::empty()
    } else if units(s[0]) as int <= budget {
        seq![s[0]] + truncate_units(s.drop_first(), budget - units(s[0]))
    } else {
        seq!['\u{FFFD}']
    }
}

/// A name made valid for a long FAT name: forbidden characters become
/// `_`, trailing dots and spaces go, nothing left becomes `_`, and it is
/// cut to 255 UTF-16 units.
pub open spec fn clean_long(name: Seq<char>) -> Seq<char> {
    let m = name.map_values(|c: char| if bad_long_char(c) { '_' } else { c });
    let t = m.take(m.len() - trail_dots(m));
    let n = if t.len() == 0 {
        seq!['_']
    } else {
        t
    };
    if utf16_len(n) > 255 {
        truncate_units(n, 255)
    } else {
        n
    }
}

/// The stem of a name: up to its last dot, unless that is the first
/// character.
pub open spec fn stem_of(s: Seq<char>) -> Seq<char> {
    let i = last_index(s, '.');
    if i > 0 {
        s.take(i)
    } else {
        s
    }
}

/// The extension of a name, with its dot.
pub open spec fn dot_ext_of(s: Seq<char>) -> Seq<char> {
    let i = last_index(s, '.');
    if i > 0 {
        s.skip(i)
    } else {
        Seq::empty()
    }
}

/// The `k`-th name tried: the name itself, then `stem (k)ext`.
pub open spec fn long_candidate(clean: Seq<char>, k: nat) -> Seq<char> {
    if k <= 1 {
        clean
    } else {
        stem_of(clean) + seq![' ', '('] + decimal(k) + seq![')'] + dot_ext_of(clean)
    }
}

/// Numbers are tried up to this one.
pub const MAX_COPY: u64 = 2147483647;

/// The first try from `k` on whose lower case is not among `seen`, or
/// `MAX_COPY`.
pub open spec fn first_unique(clean: Seq<char>, seen: Seq<Seq<char>>, k: nat) -> nat
    decreases MAX_COPY - k,
{
    if k >= MAX_COPY {
        MAX_COPY as nat
    } else if !seen.contains(unicode_lowercase(long_candidate(clean, k))) {
        k
    } else {
        first_unique(clean, seen, k + 1)
    }
}

/// The lower case of each name.
pub open spec fn lowered(names: Seq<Seq<char>>) -> Seq<Seq<char>> {
    names.map_values(|n: Seq<char>| unicode_lowercase(n))
}

/// The long names for `names`, in order: each made valid, and numbered
/// where its lower case clashes with an earlier one.
pub open spec fn unique_names(names: Seq<Seq<char>>) -> Seq<Seq<char>>
    decreases names.len(),
{
    if names.len() == 0 {
        Seq::empty()
    } else {
        let prev = unique_names(names.drop_last());
        let c = clean_long(names.last());
        prev.push(long_candidate(c, first_unique(c, lowered(prev), 1)))
    }
}


pub proof fn lemma_trail_dots(s: Seq<char>)
    ensures
        trail_dots(s) <= s.len(),
        forall|i: int| s.len() - trail_dots(s) <= i < s.len() ==> (#[trigger] s[i] == '.' || s[i]
            == ' '),
        trail_dots(s) < s.len() ==> !(s[s.len() - trail_dots(s) - 1] == '.' || s[s.len()
            - trail_dots(s) - 1] == ' '),
    decreases s.len(),
{
    if s.len() > 0 && (s.last() == '.' || s.last() == ' ') {
        lemma_trail_dots(s.drop_last());
        assert forall|i: int| s.len() - trail_dots(s) <= i < s.len() implies (#[trigger] s[i]
            == '.' || s[i] == ' ') by {
            if i < s.len() - 1 {
                assert(s[i] == s.drop_last()[i]);
            }
        }
    }
}

fn units_exec(c: char) -> (r: u64)
    ensures
        r == units(c),
{
    if (c as u32) >= 0x10000 {
        2
    } else {
        1
    }
}

pub proof fn lemma_utf16_prefix(s: Seq<char>, i: int)
    requires
        0 <= i <= s.len(),
    ensures
        utf16_len(s.take(i)) <= utf16_len(s),
    decreases s.len(),
{
    if i < s.len() {
        assert(s.drop_last().take(i) =~= s.take(i));
        lemma_utf16_prefix(s.drop_last(), i);
    } else {
        assert(s.take(i) =~= s);
    }
}

/// Whether the text is longer than `limit` UTF-16 units.
fn utf16_longer_than(v: &Vec<char>, limit: u64) -> (r: bool)
    requires
        limit < 0x1_0000_0000,
    ensures
        r == (utf16_len(v@) > limit),
{
    let mut n: u64 = 0;
    let mut i: usize = 0;
    while i < v.len()
        invariant
            i <= v.len(),
            n == utf16_len(v@.take(i as int)),
            n <= limit,
            limit < 0x1_0000_0000,
        decreases v.len() - i,
    {
        assert(v@.take(i + 1).drop_last() =~= v@.take(i as int));
        n = n + units_exec(v[i]);
        i = i + 1;
        if n > limit {
            proof {
                lemma_utf16_prefix(v@, i as int);
            }
            return true;
        }
    }
    assert(v@.take(v.len() as int) =~= v@);
    false
}

fn truncate_units_exec(v: &Vec<char>, budget: u64) -> (r: Vec<char>)
    ensures
        r@ == truncate_units(v@, budget as int),
{
    let mut out: Vec<char> = Vec::new();
    let mut left = budget;
    let mut i: usize = 0;
    assert(v@.skip(0) =~= v@);
    while i < v.len() && left > 0
        invariant
            i <= v.len(),
            left <= budget,
            out@ + truncate_units(v@.skip(i as int), left as int) == truncate_units(
                v@,
                budget as int,
            ),
        decreases v.len() - i,
    {
        let u = units_exec(v[i]);
        assert(v@.skip(i as int)[0] == v@[i as int]);
        assert(v@.skip(i as int).drop_first() =~= v@.skip(i + 1));
        if u <= left {
            out.push(v[i]);
            left = left - u;
            i = i + 1;
        } else {
            let ghost before = out@;
            out.push('\u{FFFD}');
            assert(out@ =~= before + seq!['\u{FFFD}']);
            return out;
        }
    }
    assert(out@ + truncate_units(v@.skip(i as int), left as int) =~= out@);
    out
}


fn clean_long_exec(name: &str) -> (r: Vec<char>)
    ensures
        r@ == clean_long(name@),
{
    let v = chars_of(name);
    let ghost m = name@.map_values(|c: char| if bad_long_char(c) { '_' } else { c });
    let mut mapped: Vec<char> = Vec::new();
    let mut i: usize = 0;
    while i < v.len()
        invariant
            v@ == name@,
            i <= v.len(),
            m == name@.map_values(|c: char| if bad_long_char(c) { '_' } else { c }),
            mapped@ =~= m.take(i as int),
        decreases v.len() - i,
    {
        if is_bad_long_char(v[i]) {
            mapped.push('_');
        } else {
            mapped.push(v[i]);
        }
        i = i + 1;
    }
    assert(m.take(v.len() as int) =~= m);
    let mut end = mapped.len();
    while end > 0 && (mapped[end - 1] == '.' || mapped[end - 1] == ' ')
        invariant
            mapped@ == m,
            end <= m.len(),
            forall|j: int| end <= j < m.len() ==> (#[trigger] m[j] == '.' || m[j] == ' '),
        decreases end,
    {
        end = end - 1;
    }
    proof {
        lemma_trail_dots(m);
        let t = trail_dots(m);
        if (t as int) < m.len() - end {
            assert(!(m[m.len() - t - 1] == '.' || m[m.len() - t - 1] == ' '));
        }
        if (t as int) > m.len() - end {
            assert(m[end - 1] == '.' || m[end - 1] == ' ');
        }
    }
    let mut n = slice_chars(&mapped, 0, end);
    if n.len() == 0 {
        n.push('_');
        assert(n@ =~= seq!['_']);
    }
    if utf16_longer_than(&n, 255) {
        truncate_units_exec(&n, 255)
    } else {
        n
    }
}

fn long_candidate_exec(clean: &Vec<char>, k: u64) -> (r: String)
    ensures
        r@ == long_candidate(clean@, k as nat),
{
    if k <= 1 {
        return string_of(clean);
    }
    proof {
        lemma_last_index(clean@, '.');
    }
    let (stem, ext) = match last_index_exec(clean, '.') {
        Some(i) => {
            if i > 0 {
                (slice_chars(clean, 0, i), slice_chars(clean, i, clean.len()))
            } else {
                let e: Vec<char> = Vec::new();
                (slice_chars(clean, 0, clean.len()), e)
            }
        },
        None => {
            let e: Vec<char> = Vec::new();
            (slice_chars(clean, 0, clean.len()), e)
        },
    };
    assert(stem@ == stem_of(clean@));
    assert(ext@ == dot_ext_of(clean@));
    let mut out = stem;
    out.push(' ');
    out.push('(');
    push_digits(&mut out, k);
    out.push(')');
    let mut i: usize = 0;
    let ghost before = out@;
    while i < ext.len()
        invariant
            i <= ext.len(),
            out@ =~= before + ext@.take(i as int),
        decreases ext.len() - i,
    {
        out.push(ext[i]);
        i = i + 1;
    }
    assert(ext@.take(ext.len() as int) =~= ext@);
    string_of(&out)
}

/// The text of each string.
pub open spec fn texts(v: Seq<String>) -> Seq<Seq<char>> {
    v.map_values(|s: String| s@)
}

fn contains_text(seen: &Vec<String>, s: &String) -> (r: bool)
    ensures
        r == texts(seen@).contains(s@),
{
    let mut i: usize = 0;
    while i < seen.len()
        invariant
            i <= seen.len(),
            forall|j: int| 0 <= j < i ==> seen@[j]@ != s@,
        decreases seen.len() - i,
    {
        if crate::models::str_eq(seen[i].as_str(), s.as_str()) {
            assert(texts(seen@)[i as int] == s@);
            return true;
        }
        i = i + 1;
    }
    proof {
        if texts(seen@).contains(s@) {
            let j = choose|j: int| 0 <= j < texts(seen@).len() && texts(seen@)[j] == s@;
            assert(seen@[j]@ == s@);
        }
    }
    false
}

/// Makes every name valid for a long FAT name, and unique ignoring case:
/// a name whose lower case an earlier one has gets ` (2)`, ` (3)`, … before
/// its extension.
pub fn unique_long_names(names: &Vec<String>) -> (r: Vec<String>)
    ensures
        texts(r@) == unique_names(texts(names@)),
{
    let mut out: Vec<String> = Vec::new();
    let mut seen: Vec<String> = Vec::new();
    let mut i: usize = 0;
    while i < names.len()
        invariant
            i <= names.len(),
            texts(out@) == unique_names(texts(names@).take(i as int)),
            texts(seen@) == lowered(texts(out@)),
        decreases names.len() - i,
    {
        let clean = clean_long_exec(names[i].as_str());
        let ghost prev = texts(out@);
        let mut k: u64 = 1;
        let mut candidate = long_candidate_exec(&clean, 1);
        let mut lower = to_lowercase(candidate.as_str());
        while k < 2147483647 && contains_text(&seen, &lower)
            invariant
                1 <= k <= MAX_COPY,
                candidate@ == long_candidate(clean@, k as nat),
                lower@ == unicode_lowercase(candidate@),
                texts(seen@) == lowered(prev),
                first_unique(clean@, lowered(prev), 1) == first_unique(clean@, lowered(prev), k as nat),
            decreases MAX_COPY - k,
        {
            k = k + 1;
            candidate = long_candidate_exec(&clean, k);
            lower = to_lowercase(candidate.as_str());
        }
        assert(first_unique(clean@, lowered(prev), k as nat) == k);
        let ghost names_i = texts(names@).take(i + 1);
        assert(names_i.drop_last() =~= texts(names@).take(i as int));
        assert(names_i.last() == names@[i as int]@);
        out.push(candidate);
        seen.push(lower);
        assert(texts(out@) =~= prev.push(candidate@));
        assert(lowered(texts(out@)) =~= lowered(prev).push(lower@));
        assert(texts(seen@) =~= lowered(prev).push(lower@));
        i = i + 1;
    }
    assert(texts(names@).take(names.len() as int) =~= texts(names@));
    out
}


pub proof fn lemma_utf16_len_concat(a: Seq<char>, b: Seq<char>)
    ensures
        utf16_len(a + b) == utf16_len(a) + utf16_len(b),
    decreases b.len(),
{
    if b.len() > 0 {
        assert((a + b).drop_last() =~= a + b.drop_last());
        lemma_utf16_len_concat(a, b.drop_last());
    } else {
        assert(a + b =~= a);
    }
}

pub proof fn lemma_truncate_units_len(s: Seq<char>, budget: int)
    requires
        budget >= 0,
    ensures
        utf16_len(truncate_units(s, budget)) <= budget,
    decreases s.len(),
{
    reveal_with_fuel(utf16_len, 2);
    if s.len() == 0 || budget <= 0 {
    } else if units(s[0]) as int <= budget {
        lemma_truncate_units_len(s.drop_first(), budget - units(s[0]));
        lemma_utf16_len_concat(seq![s[0]], truncate_units(s.drop_first(), budget - units(s[0])));
        assert(seq![s[0]].drop_last() =~= Seq::<char>::empty());
        assert(utf16_len(seq![s[0]]) == units(s[0]));
    } else {
        let r = seq!['\u{FFFD}'];
        assert(r.drop_last() =~= Seq::<char>::empty());
        assert(('\u{FFFD}' as u32) < 0x10000);
        assert(utf16_len(r) == units(r.last()));
    }
}

pub proof fn lemma_clean_long_len(name: Seq<char>)
    ensures
        utf16_len(clean_long(name)) <= 255,
{
    let m = name.map_values(|c: char| if bad_long_char(c) { '_' } else { c });
    let t = m.take(m.len() - trail_dots(m));
    let n = if t.len() == 0 {
        seq!['_']
    } else {
        t
    };
    if utf16_len(n) > 255 {
        lemma_truncate_units_len(n, 255);
    }
}

pub proof fn lemma_decimal_units(n: nat)
    ensures
        utf16_len(decimal(n)) == decimal(n).len(),
    decreases n,
{
    reveal_with_fuel(utf16_len, 2);
    lemma_decimal_len(n);
    let d = digit_char(n % 10);
    assert(decimal(n).last() == d);
    assert('0' <= d <= '9');
    assert((d as u32) < 0x10000);
    if n >= 10 {
        lemma_decimal_units(n / 10);
        assert(decimal(n).drop_last() =~= decimal(n / 10));
    } else {
        assert(decimal(n).drop_last() =~= Seq::<char>::empty());
    }
}

pub proof fn lemma_decimal_len_10(n: nat)
    requires
        n <= MAX_COPY,
    ensures
        decimal(n).len() <= 10,
{
    lemma_decimal_len(n);
    lemma_decimal_len(n / 10);
    lemma_decimal_len(n / 100);
    lemma_decimal_len(n / 1000);
    lemma_decimal_len(n / 10000);
    lemma_decimal_len(n / 100000);
    lemma_decimal_len(n / 1000000);
    lemma_decimal_len(n / 10000000);
    lemma_decimal_len(n / 100000000);
    lemma_decimal_len(n / 1000000000);
    assert(n / 10 / 10 == n / 100);
    assert(n / 100 / 10 == n / 1000);
    assert(n / 1000 / 10 == n / 10000);
    assert(n / 10000 / 10 == n / 100000);
    assert(n / 100000 / 10 == n / 1000000);
    assert(n / 1000000 / 10 == n / 10000000);
    assert(n / 10000000 / 10 == n / 100000000);
    assert(n / 100000000 / 10 == n / 1000000000);
}

/// Every name tried for a cleaned name is at most 268 UTF-16 units.
pub proof fn lemma_candidate_len(c: Seq<char>, k: nat)
    requires
        utf16_len(c) <= 255,
        k <= MAX_COPY,
    ensures
        utf16_len(long_candidate(c, k)) <= 268,
{
    reveal_with_fuel(utf16_len, 3);
    if k > 1 {
        let stem = stem_of(c);
        let ext = dot_ext_of(c);
        lemma_last_index(c, '.');
        assert(stem + ext =~= c);
        assert((' ' as u32) < 0x10000 && ('(' as u32) < 0x10000 && (')' as u32) < 0x10000);
        lemma_utf16_len_concat(stem, ext);
        lemma_decimal_len_10(k);
        lemma_decimal_units(k);
        let sp = seq![' ', '('];
        let cl = seq![')'];
        assert(sp.drop_last().drop_last() =~= Seq::<char>::empty());
        assert(sp.drop_last() =~= seq![' ']);
        assert(cl.drop_last() =~= Seq::<char>::empty());
        lemma_utf16_len_concat(stem, sp);
        lemma_utf16_len_concat(stem + sp, decimal(k));
        lemma_utf16_len_concat(stem + sp + decimal(k), cl);
        lemma_utf16_len_concat(stem + sp + decimal(k) + cl, ext);
    }
}

pub proof fn lemma_unique_names_len(names: Seq<Seq<char>>)
    ensures
        unique_names(names).len() == names.len(),
        forall|i: int| 0 <= i < names.len() ==> utf16_len(#[trigger] unique_names(names)[i]) <= 268,
    decreases names.len(),
{
    if names.len() > 0 {
        lemma_unique_names_len(names.drop_last());
        let prev = unique_names(names.drop_last());
        let c = clean_long(names.last());
        lemma_clean_long_len(names.last());
        let k = first_unique(c, lowered(prev), 1);
        lemma_first_unique_bound(c, lowered(prev), 1);
        lemma_candidate_len(c, k);
        assert forall|i: int| 0 <= i < names.len() implies utf16_len(#[trigger] unique_names(names)[i]) <= 268 by {
            if i < names.len() - 1 {
                assert(unique_names(names)[i] == prev[i]);
            }
        }
    }
}

/// Whether every name of `names` found a free numbered form before the
/// numbers ran out.
pub open spec fn names_found(names: Seq<Seq<char>>) -> bool
    decreases names.len(),
{
    names.len() == 0 || (names_found(names.drop_last()) && first_unique(
        clean_long(names.last()),
        lowered(unique_names(names.drop_last())),
        1,
    ) < MAX_COPY)
}

proof fn lemma_first_unique_free(clean: Seq<char>, seen: Seq<Seq<char>>, k: nat)
    ensures
        first_unique(clean, seen, k) < MAX_COPY ==> !seen.contains(
            unicode_lowercase(long_candidate(clean, first_unique(clean, seen, k))),
        ),
    decreases MAX_COPY - k,
{
    if k < MAX_COPY && seen.contains(unicode_lowercase(long_candidate(clean, k))) {
        lemma_first_unique_free(clean, seen, k + 1);
    }
}

/// The long names of one directory are pairwise different ignoring case
/// (wherever the numbering found a free form).
pub proof fn lemma_unique_names_distinct(names: Seq<Seq<char>>)
    requires
        names_found(names),
    ensures
        lowered(unique_names(names)).no_duplicates(),
    decreases names.len(),
{
    if names.len() > 0 {
        let rest = names.drop_last();
        lemma_unique_names_distinct(rest);
        let prev = unique_names(rest);
        let c = clean_long(names.last());
        let k = first_unique(c, lowered(prev), 1);
        lemma_first_unique_free(c, lowered(prev), 1);
        let x = long_candidate(c, k);
        assert(lowered(prev.push(x)) =~= lowered(prev).push(unicode_lowercase(x)));
        let l = lowered(prev).push(unicode_lowercase(x));
        assert forall|i: int, j: int| 0 <= i < l.len() && 0 <= j < l.len() && i != j implies l[i]
            != l[j] by {
            if j == l.len() - 1 {
                assert(lowered(prev)[i] == l[i]);
            } else if i == l.len() - 1 {
                assert(lowered(prev)[j] == l[j]);
            }
        }
    }
}

pub proof fn lemma_first_unique_bound(clean: Seq<char>, seen: Seq<Seq<char>>, k: nat)
    ensures
        first_unique(clean, seen, k) <= MAX_COPY || k > MAX_COPY,
    decreases MAX_COPY - k,
{
    if k < MAX_COPY && seen.contains(unicode_lowercase(long_candidate(clean, k))) {
        lemma_first_unique_bound(clean, seen, k + 1);
    }
}

} // verus!
