//! The entity codec: escaping and unescaping of the five predefined XML
//! entities and of decimal and hexadecimal character references.

use vstd::prelude::*;

verus! {

/// Unescaping failed: an `&` was not followed by a recognized entity form
/// terminated by `;`.
#[derive(Debug, Clone, Copy, PartialEq, Eq)]
pub enum CodecError {
    InvalidEntity,
}

impl CodecError {
    /// The text describing this error.
    pub fn message(&self) -> (r: &'static str)
        ensures
            r@ == "Found invalid entity"@,
    {
        "Found invalid entity"
    }
}

/// The expansion of a single character under entity escaping.
pub open spec fn escape_char(c: char) -> Seq<char> {
    if c == '&' {
        seq!['&', 'a', 'm', 'p', ';']
    } else if c == '<' {
        seq!['&', 'l', 't', ';']
    } else if c == '>' {
        seq!['&', 'g', 't', ';']
    } else if c == '\'' {
        seq!['&', 'a', 'p', 'o', 's', ';']
    } else if c == '"' {
        seq!['&', 'q', 'u', 'o', 't', ';']
    } else {
        seq![c]
    }
}

/// Entity escaping of a whole text: each character replaced by its expansion.
pub open spec fn spec_escape(s: Seq<char>) -> Seq<char>
    decreases s.len(),
{
    if s.len() == 0 {
        Seq::empty()
    } else {
        escape_char(s[0]) + spec_escape(s.skip(1))
    }
}

/// The position of the first occurrence of `c` in `s`, if any.
pub open spec fn find_char(s: Seq<char>, c: char) -> Option<int>
    decreases s.len(),
{
    if s.len() == 0 {
        None
    } else if s[0] == c {
        Some(0)
    } else {
        match find_char(s.skip(1), c) {
            None => None,
            Some(j) => Some(j + 1),
        }
    }
}

pub open spec fn is_dec_digit(c: char) -> bool {
    '0' as u32 <= c as u32 <= '9' as u32
}

pub open spec fn dec_digit(c: char) -> int {
    c as u32 - '0' as u32
}

pub open spec fn all_dec_digits(s: Seq<char>) -> bool {
    forall|i: int| 0 <= i < s.len() ==> is_dec_digit(#[trigger] s[i])
}

/// The value of a sequence of decimal digits, most significant first.
pub open spec fn dec_val(s: Seq<char>) -> int
    decreases s.len(),
{
    if s.len() == 0 {
        0
    } else {
        dec_val(s.drop_last()) * 10 + dec_digit(s.last())
    }
}

pub open spec fn is_hex_digit(c: char) -> bool {
    ('0' as u32 <= c as u32 <= '9' as u32) || ('a' as u32 <= c as u32 <= 'f' as u32) || ('A'
        as u32 <= c as u32 <= 'F' as u32)
}

pub open spec fn hex_digit(c: char) -> int {
    if '0' as u32 <= c as u32 <= '9' as u32 {
        c as u32 - '0' as u32
    } else if 'a' as u32 <= c as u32 <= 'f' as u32 {
        c as u32 - 'a' as u32 + 10
    } else {
        c as u32 - 'A' as u32 + 10
    }
}

pub open spec fn all_hex_digits(s: Seq<char>) -> bool {
    forall|i: int| 0 <= i < s.len() ==> is_hex_digit(#[trigger] s[i])
}

/// The value of a sequence of hexadecimal digits, most significant first.
pub open spec fn hex_val(s: Seq<char>) -> int
    decreases s.len(),
{
    if s.len() == 0 {
        0
    } else {
        hex_val(s.drop_last()) * 16 + hex_digit(s.last())
    }
}

/// Whether `n` is a Unicode scalar value, i.e. a valid character code.
pub open spec fn scalar_value(n: int) -> bool {
    0 <= n <= 0x10FFFF && !(0xD800 <= n < 0xE000)
}

/// The character denoted by an entity body (the text between `&` and `;`):
/// one of the five predefined names, or a decimal or hexadecimal character
/// reference.
pub open spec fn entity_replacement(ent: Seq<char>) -> Option<char> {
    if ent == seq!['a', 'm', 'p'] {
        Some('&')
    } else if ent == seq!['l', 't'] {
        Some('<')
    } else if ent == seq!['g', 't'] {
        Some('>')
    } else if ent == seq!['a', 'p', 'o', 's'] {
        Some('\'')
    } else if ent == seq!['q', 'u', 'o', 't'] {
        Some('"')
    } else if ent.len() >= 2 && ent[0] == '#' && ent[1] == 'x' {
        let ds = ent.skip(2);
        if ds.len() > 0 && all_hex_digits(ds) && scalar_value(hex_val(ds)) {
            Some((hex_val(ds) as u32) as char)
        } else {
            None
        }
    } else if ent.len() >= 1 && ent[0] == '#' {
        let ds = ent.skip(1);
        if ds.len() > 0 && all_dec_digits(ds) && scalar_value(dec_val(ds)) {
            Some((dec_val(ds) as u32) as char)
        } else {
            None
        }
    } else {
        None
    }
}

/// Entity unescaping of a whole text: every `&` must open an entity that a
/// `;` terminates; anything else fails.
pub open spec fn spec_unescape(s: Seq<char>) -> Option<Seq<char>>
    decreases s.len(),
{
    if s.len() == 0 {
        Some(Seq::empty())
    } else if s[0] != '&' {
        match spec_unescape(s.skip(1)) {
            None => None,
            Some(t) => Some(seq![s[0]] + t),
        }
    } else {
        match find_char(s.skip(1), ';') {
            None => None,
            Some(j) =>
            // the guard always holds: `j` indexes into `s.skip(1)`
            if 0 <= j && j + 2 <= s.len() {
                match entity_replacement(s.subrange(1, 1 + j)) {
                    None => None,
                    Some(c) => match spec_unescape(s.skip(j + 2)) {
                        None => None,
                        Some(t) => Some(seq![c] + t),
                    },
                }
            } else {
                None
            },
        }
    }
}

/// `find_char` yields the first occurrence: the character stands there, and
/// nowhere earlier.
pub proof fn lemma_find_char_some(s: Seq<char>, c: char, j: int)
    requires
        find_char(s, c) == Some(j),
    ensures
        0 <= j < s.len(),
        s[j] == c,
        forall|k: int| 0 <= k < j ==> s[k] != c,
    decreases s.len(),
{
    if s.len() == 0 {
    } else if s[0] == c {
    } else {
        let inner = find_char(s.skip(1), c);
        match inner {
            None => {},
            Some(j1) => {
                lemma_find_char_some(s.skip(1), c, j1);
                assert(forall|k: int| 1 <= k < j ==> s[k] == s.skip(1)[k - 1]);
            },
        }
    }
}

/// A character that does not occur is not found.
pub proof fn lemma_find_char_absent(s: Seq<char>, c: char)
    requires
        forall|k: int| 0 <= k < s.len() ==> s[k] != c,
    ensures
        find_char(s, c) is None,
    decreases s.len(),
{
    if s.len() > 0 {
        assert(forall|k: int| 0 <= k < s.skip(1).len() ==> s.skip(1)[k] == s[k + 1]);
        lemma_find_char_absent(s.skip(1), c);
    }
}

/// The converse: an occurrence at `j` with none earlier pins `find_char`.
pub proof fn lemma_find_char_at(s: Seq<char>, c: char, j: int)
    requires
        0 <= j < s.len(),
        s[j] == c,
        forall|k: int| 0 <= k < j ==> s[k] != c,
    ensures
        find_char(s, c) == Some(j),
    decreases s.len(),
{
    if j == 0 {
    } else {
        assert(s.skip(1)[j - 1] == s[j]);
        assert(forall|k: int| 0 <= k < j - 1 ==> s.skip(1)[k] == s[k + 1]);
        lemma_find_char_at(s.skip(1), c, j - 1);
    }
}

pub proof fn lemma_dec_val_nonneg(s: Seq<char>)
    requires
        all_dec_digits(s),
    ensures
        dec_val(s) >= 0,
    decreases s.len(),
{
    if s.len() > 0 {
        assert(all_dec_digits(s.drop_last())) by {
            assert(forall|i: int| 0 <= i < s.len() - 1 ==> s.drop_last()[i] == s[i]);
        }
        lemma_dec_val_nonneg(s.drop_last());
    }
}

pub proof fn lemma_hex_val_nonneg(s: Seq<char>)
    requires
        all_hex_digits(s),
    ensures
        hex_val(s) >= 0,
    decreases s.len(),
{
    if s.len() > 0 {
        assert(all_hex_digits(s.drop_last())) by {
            assert(forall|i: int| 0 <= i < s.len() - 1 ==> s.drop_last()[i] == s[i]);
        }
        lemma_hex_val_nonneg(s.drop_last());
    }
}

/// Escaping distributes over concatenation.
pub proof fn lemma_escape_append(a: Seq<char>, b: Seq<char>)
    ensures
        spec_escape(a + b) == spec_escape(a) + spec_escape(b),
    decreases a.len(),
{
    if a.len() == 0 {
        assert(a + b =~= b);
        assert(spec_escape(a) + spec_escape(b) =~= spec_escape(b));
    } else {
        assert((a + b).skip(1) =~= a.skip(1) + b);
        lemma_escape_append(a.skip(1), b);
        assert((a + b)[0] == a[0]);
        assert(escape_char(a[0]) + (spec_escape(a.skip(1)) + spec_escape(b)) =~= (escape_char(a[0])
            + spec_escape(a.skip(1))) + spec_escape(b));
    }
}

proof fn lemma_escape_snoc(s: Seq<char>, i: int)
    requires
        0 <= i < s.len(),
    ensures
        spec_escape(s.take(i + 1)) == spec_escape(s.take(i)) + escape_char(s[i]),
{
    assert(s.take(i + 1) =~= s.take(i) + seq![s[i]]);
    lemma_escape_append(s.take(i), seq![s[i]]);
    assert(seq![s[i]].skip(1) =~= Seq::<char>::empty());
    assert(spec_escape(Seq::<char>::empty()) =~= Seq::<char>::empty());
    assert(spec_escape(seq![s[i]]) == escape_char(seq![s[i]][0]) + spec_escape(
        seq![s[i]].skip(1),
    ));
    assert(escape_char(s[i]) + Seq::<char>::empty() =~= escape_char(s[i]));
    assert(spec_escape(seq![s[i]]) =~= escape_char(s[i]));
}

/// Replaces `&`, `<`, `>`, `'` and `"` by their predefined entities.
pub fn escape(input: &str) -> (r: String)
    ensures
        r@ == spec_escape(input@),
{
    let n = input.unicode_len();
    let mut out = String::new();
    let mut i: usize = 0;
    while i < n
        invariant
            i <= n,
            n == input@.len(),
            out@ == spec_escape(input@.take(i as int)),
        decreases n - i,
    {
        let ghost out0 = out@;
        let c = input.get_char(i);
        if c == '&' {
            out.push('&');
            out.push('a');
            out.push('m');
            out.push('p');
            out.push(';');
        } else if c == '<' {
            out.push('&');
            out.push('l');
            out.push('t');
            out.push(';');
        } else if c == '>' {
            out.push('&');
            out.push('g');
            out.push('t');
            out.push(';');
        } else if c == '\'' {
            out.push('&');
            out.push('a');
            out.push('p');
            out.push('o');
            out.push('s');
            out.push(';');
        } else if c == '"' {
            out.push('&');
            out.push('q');
            out.push('u');
            out.push('o');
            out.push('t');
            out.push(';');
        } else {
            out.push(c);
        }
        proof {
            assert(out@ =~= out0 + escape_char(input@[i as int]));
            lemma_escape_snoc(input@, i as int);
        }
        i = i + 1;
    }
    proof {
        assert(input@.take(n as int) =~= input@);
    }
    out
}

/// Recognizes an entity body and yields its replacement character.
fn entity_char(ent: &Vec<char>) -> (r: Option<char>)
    ensures
        r == entity_replacement(ent@),
{
    let n = ent.len();
    if n == 3 && ent[0] == 'a' && ent[1] == 'm' && ent[2] == 'p' {
        proof {
            assert(ent@ =~= seq!['a', 'm', 'p']);
        }
        return Some('&');
    }
    if n == 2 && ent[0] == 'l' && ent[1] == 't' {
        proof {
            assert(ent@ =~= seq!['l', 't']);
        }
        return Some('<');
    }
    if n == 2 && ent[0] == 'g' && ent[1] == 't' {
        proof {
            assert(ent@ =~= seq!['g', 't']);
        }
        return Some('>');
    }
    if n == 4 && ent[0] == 'a' && ent[1] == 'p' && ent[2] == 'o' && ent[3] == 's' {
        proof {
            assert(ent@ =~= seq!['a', 'p', 'o', 's']);
        }
        return Some('\'');
    }
    if n == 4 && ent[0] == 'q' && ent[1] == 'u' && ent[2] == 'o' && ent[3] == 't' {
        proof {
            assert(ent@ =~= seq!['q', 'u', 'o', 't']);
        }
        return Some('"');
    }
    if n >= 2 && ent[0] == '#' && ent[1] == 'x' {
        return numeric_char(ent, 2, true);
    }
    if n >= 1 && ent[0] == '#' {
        return numeric_char(ent, 1, false);
    }
    None
}

/// Parses the digits of a numeric character reference, capping the
/// accumulated value once it exceeds the Unicode maximum.
fn numeric_char(ent: &Vec<char>, start: usize, hex: bool) -> (r: Option<char>)
    requires
        1 <= start <= 2,
        start <= ent@.len(),
        ent@[0] == '#',
        start == 2 ==> ent@.len() >= 2 && ent@[1] == 'x',
        start == 1 ==> !(ent@.len() >= 2 && ent@[1] == 'x'),
        hex == (start == 2),
    ensures
        r == entity_replacement(ent@),
{
    proof {
        lemma_hash_not_named(ent@);
    }
    let ghost ds = ent@.skip(start as int);
    let n = ent.len();
    if n == start {
        proof {
            assert(ds.len() == 0);
        }
        return None;
    }
    let mut val: u32 = 0;
    let mut too_big = false;
    let mut idx: usize = start;
    while idx < n
        invariant
            start <= idx <= n,
            start < n,
            n == ent@.len(),
            ds == ent@.skip(start as int),
            1 <= start <= 2,
            ent@[0] == '#',
            start == 2 ==> ent@.len() >= 2 && ent@[1] == 'x',
            start == 1 ==> !(ent@.len() >= 2 && ent@[1] == 'x'),
            hex == (start == 2),
            forall|t: int| 0 <= t < idx - start ==> if hex {
                is_hex_digit(#[trigger] ds[t])
            } else {
                is_dec_digit(ds[t])
            },
            !too_big ==> val <= 0x10FFFF && val as int == if hex {
                hex_val(ds.take(idx - start))
            } else {
                dec_val(ds.take(idx - start))
            },
            too_big ==> (if hex {
                hex_val(ds.take(idx - start))
            } else {
                dec_val(ds.take(idx - start))
            }) > 0x10FFFF,
        decreases n - idx,
    {
        let c = ent[idx];
        let u = c as u32;
        let ghost prefix = ds.take(idx - start);
        let ghost prefix1 = ds.take(idx + 1 - start);
        proof {
            assert(ds[idx - start] == ent@[idx as int]);
            assert(prefix1.drop_last() =~= prefix);
            assert(prefix1.last() == ds[idx - start]);
            if hex {
                assert(forall|t: int| 0 <= t < prefix.len() ==> prefix[t] == ds[t]);
                lemma_hex_val_nonneg_weak(prefix);
            } else {
                assert(forall|t: int| 0 <= t < prefix.len() ==> prefix[t] == ds[t]);
                lemma_dec_val_nonneg_weak(prefix);
            }
        }
        let d: u32;
        if !hex {
            if 48 <= u && u <= 57 {
                d = u - 48;
            } else {
                proof {
                    lemma_hash_not_named(ent@);
                    assert(!is_dec_digit(ds[idx - start]));
                }
                return None;
            }
        } else {
            if 48 <= u && u <= 57 {
                d = u - 48;
            } else if 97 <= u && u <= 102 {
                d = u - 97 + 10;
            } else if 65 <= u && u <= 70 {
                d = u - 65 + 10;
            } else {
                proof {
                    lemma_hash_not_named(ent@);
                    assert(!is_hex_digit(ds[idx - start]));
                }
                return None;
            }
        }
        let base: u32 = if hex {
            16
        } else {
            10
        };
        if too_big {
            proof {
                if hex {
                    assert(hex_val(prefix1) == hex_val(prefix) * 16 + hex_digit(prefix1.last()));
                    assert(hex_val(prefix) * 16 >= hex_val(prefix));
                } else {
                    assert(dec_val(prefix1) == dec_val(prefix) * 10 + dec_digit(prefix1.last()));
                    assert(dec_val(prefix) * 10 >= dec_val(prefix));
                }
            }
        } else {
            let nv = val * base + d;
            if nv > 0x10FFFF {
                too_big = true;
            } else {
                val = nv;
            }
            proof {
                if hex {
                    assert(hex_val(prefix1) == hex_val(prefix) * 16 + hex_digit(prefix1.last()));
                } else {
                    assert(dec_val(prefix1) == dec_val(prefix) * 10 + dec_digit(prefix1.last()));
                }
            }
        }
        idx = idx + 1;
    }
    proof {
        lemma_hash_not_named(ent@);
        assert(ds.take(n - start) =~= ds);
    }
    if too_big {
        return None;
    }
    if 0xD800 <= val && val < 0xE000 {
        return None;
    }
    match char::from_u32(val) {
        Some(c) => {
            proof {
                vstd::utf8::char_u32_cast(c, val);
            }
            Some(c)
        },
        None => {
            proof {
                assert(false);
            }
            vstd::pervasive::unreached()
        },
    }
}

/// An entity body that opens with `#` is none of the five named entities.
proof fn lemma_hash_not_named(ent: Seq<char>)
    requires
        ent.len() >= 1,
        ent[0] == '#',
    ensures
        ent != seq!['a', 'm', 'p'],
        ent != seq!['l', 't'],
        ent != seq!['g', 't'],
        ent != seq!['a', 'p', 'o', 's'],
        ent != seq!['q', 'u', 'o', 't'],
{
    assert(seq!['a', 'm', 'p'][0] == 'a');
    assert(seq!['l', 't'][0] == 'l');
    assert(seq!['g', 't'][0] == 'g');
    assert(seq!['a', 'p', 'o', 's'][0] == 'a');
    assert(seq!['q', 'u', 'o', 't'][0] == 'q');
}

proof fn lemma_dec_val_nonneg_weak(s: Seq<char>)
    requires
        forall|i: int| 0 <= i < s.len() ==> is_dec_digit(#[trigger] s[i]),
    ensures
        dec_val(s) >= 0,
{
    assert(all_dec_digits(s));
    lemma_dec_val_nonneg(s);
}

proof fn lemma_hex_val_nonneg_weak(s: Seq<char>)
    requires
        forall|i: int| 0 <= i < s.len() ==> is_hex_digit(#[trigger] s[i]),
    ensures
        hex_val(s) >= 0,
{
    assert(all_hex_digits(s));
    lemma_hex_val_nonneg(s);
}

/// Undoes entity escaping; fails exactly where the text holds an `&` that
/// does not open a well-formed entity.
pub fn unescape(input: &str) -> (r: Result<String, CodecError>)
    ensures
        match spec_unescape(input@) {
            Some(t) => r matches Ok(s) && s@ == t,
            None => r matches Err(e) && e == CodecError::InvalidEntity,
        },
{
    let cs = crate::stdx::str_to_chars(input);
    let n = cs.len();
    // Fast path: text without an ampersand is handed back as it is.
    let mut amp_free = true;
    let mut k0: usize = 0;
    while k0 < n
        invariant
            k0 <= n,
            n == cs@.len(),
            cs@ == input@,
            amp_free <==> forall|t: int| 0 <= t < k0 ==> cs@[t] != '&',
        decreases n - k0,
    {
        if cs[k0] == '&' {
            amp_free = false;
        }
        k0 = k0 + 1;
    }
    if amp_free {
        proof {
            lemma_unescape_plain(input@);
        }
        return Ok(input.to_owned());
    }
    let mut out = String::new();
    let mut i: usize = 0;
    proof {
        assert(input@.skip(0) =~= input@);
        if spec_unescape(input@) is Some {
            assert(out@ + spec_unescape(input@).unwrap() =~= spec_unescape(input@).unwrap());
        }
    }
    while i < n
        invariant
            i <= n,
            n == cs@.len(),
            cs@ == input@,
            spec_unescape(input@) == match spec_unescape(input@.skip(i as int)) {
                None => None::<Seq<char>>,
                Some(t) => Some(out@ + t),
            },
        decreases n - i,
    {
        let ghost si = input@.skip(i as int);
        proof {
            assert(si[0] == input@[i as int]);
            assert(si.skip(1) =~= input@.skip(i + 1));
        }
        let c = cs[i];
        if c != '&' {
            out.push(c);
            proof {
                if spec_unescape(input@.skip(i + 1)) is Some {
                    let t = spec_unescape(input@.skip(i + 1)).unwrap();
                    assert(spec_unescape(si) == Some(seq![si[0]] + t));
                    assert((out@ + t) =~= (out@.drop_last() + (seq![si[0]] + t)));
                }
            }
            i = i + 1;
        } else {
            let mut k = i + 1;
            let mut ent: Vec<char> = Vec::new();
            while k < n && cs[k] != ';'
                invariant
                    i + 1 <= k <= n,
                    n == cs@.len(),
                    cs@ == input@,
                    ent@ == input@.subrange(i + 1, k as int),
                    forall|t: int| i + 1 <= t < k ==> input@[t] != ';',
                decreases n - k,
            {
                ent.push(cs[k]);
                proof {
                    assert(input@.subrange(i + 1, k + 1) =~= input@.subrange(i + 1, k as int).push(
                        input@[k as int],
                    ));
                }
                k = k + 1;
            }
            if k == n {
                proof {
                    assert(forall|t: int| 0 <= t < si.skip(1).len() ==> si.skip(1)[t] != ';') by {
                        assert(forall|t: int| 0 <= t < si.skip(1).len() ==> si.skip(1)[t]
                            == input@[i + 1 + t]);
                    }
                    if find_char(si.skip(1), ';') is Some {
                        let j = find_char(si.skip(1), ';').unwrap();
                        lemma_find_char_some(si.skip(1), ';', j);
                        assert(false);
                    }
                    assert(spec_unescape(si) is None);
                }
                return Err(CodecError::InvalidEntity);
            }
            let ghost j = k - i - 1;
            proof {
                assert(si.skip(1)[j as int] == input@[k as int]);
                assert(forall|t: int| 0 <= t < j ==> si.skip(1)[t] == input@[i + 1 + t]);
                lemma_find_char_at(si.skip(1), ';', j as int);
                assert(si.subrange(1, 1 + j as int) =~= input@.subrange(i + 1, k as int));
            }
            match entity_char(&ent) {
                Some(ch) => {
                    out.push(ch);
                    proof {
                        assert(si.skip(j + 2) =~= input@.skip(k + 1));
                        if spec_unescape(input@.skip(k + 1)) is Some {
                            let t = spec_unescape(input@.skip(k + 1)).unwrap();
                            assert(spec_unescape(si) == Some(seq![ch] + t));
                            assert((out@ + t) =~= (out@.drop_last() + (seq![ch] + t)));
                        }
                    }
                    i = k + 1;
                },
                None => {
                    proof {
                        assert(spec_unescape(si) is None);
                    }
                    return Err(CodecError::InvalidEntity);
                },
            }
        }
    }
    proof {
        assert(input@.skip(n as int) =~= Seq::<char>::empty());
        assert(spec_unescape(input@) == Some(out@ + Seq::<char>::empty()));
        assert(out@ + Seq::<char>::empty() =~= out@);
    }
    Ok(out)
}

/// One entity block at the head of a text unescapes to its replacement
/// character, followed by the unescaping of the rest.
proof fn lemma_unescape_block(ent: Seq<char>, c: char, tail: Seq<char>)
    requires
        ent.len() >= 1,
        forall|k: int| 0 <= k < ent.len() ==> ent[k] != ';',
        entity_replacement(ent) == Some(c),
    ensures
        spec_unescape(seq!['&'] + ent + seq![';'] + tail) == match spec_unescape(tail) {
            None => None::<Seq<char>>,
            Some(t) => Some(seq![c] + t),
        },
{
    let v = seq!['&'] + ent + seq![';'] + tail;
    let w = v.skip(1);
    assert(v[0] == '&');
    assert(w =~= ent + seq![';'] + tail);
    assert(w[ent.len() as int] == ';');
    assert(forall|k: int| 0 <= k < ent.len() ==> w[k] == ent[k]);
    lemma_find_char_at(w, ';', ent.len() as int);
    assert(v.subrange(1, 1 + ent.len() as int) =~= ent);
    assert(v.skip(ent.len() as int + 2) =~= tail);
}

/// Text without an ampersand unescapes to itself.
pub proof fn lemma_unescape_plain(s: Seq<char>)
    requires
        forall|k: int| 0 <= k < s.len() ==> s[k] != '&',
    ensures
        spec_unescape(s) == Some(s),
    decreases s.len(),
{
    if s.len() > 0 {
        assert(forall|k: int| 0 <= k < s.skip(1).len() ==> s.skip(1)[k] == s[k + 1]);
        lemma_unescape_plain(s.skip(1));
        assert(seq![s[0]] + s.skip(1) =~= s);
    }
}

/// Escaped text holds no markup delimiter: no `<`, `>`, `'` or `"`
/// survives escaping, so escaped character data cannot close an attribute
/// value or open a tag.
pub proof fn lemma_escape_no_delimiters(s: Seq<char>)
    ensures
        forall|i: int|
            0 <= i < spec_escape(s).len() ==> (#[trigger] spec_escape(s)[i]) != '<' && spec_escape(
                s,
            )[i] != '>' && spec_escape(s)[i] != '\'' && spec_escape(s)[i] != '"',
    decreases s.len(),
{
    if s.len() > 0 {
        lemma_escape_no_delimiters(s.skip(1));
        let e = escape_char(s[0]);
        assert(forall|i: int| 0 <= i < e.len() ==> e[i] != '<' && e[i] != '>' && e[i] != '\''
            && e[i] != '"');
        assert(forall|i: int|
            0 <= i < spec_escape(s).len() ==> spec_escape(s)[i] == (if i < e.len() {
                e[i]
            } else {
                spec_escape(s.skip(1))[i - e.len()]
            }));
    }
}

/// Unescaping inverts escaping: for every text, escaping then unescaping
/// yields the original text back.
pub proof fn lemma_unescape_escape(s: Seq<char>)
    ensures
        spec_unescape(spec_escape(s)) == Some(s),
    decreases s.len(),
{
    if s.len() == 0 {
        assert(spec_escape(s).len() == 0);
        assert(spec_unescape(spec_escape(s)) == Some(Seq::<char>::empty()));
        assert(s =~= Seq::<char>::empty());
    } else {
        let c = s[0];
        let rest = s.skip(1);
        lemma_unescape_escape(rest);
        let er = spec_escape(rest);
        assert(s =~= seq![c] + rest);
        if c == '&' {
            let ent = seq!['a', 'm', 'p'];
            assert(escape_char(c) + er =~= seq!['&'] + ent + seq![';'] + er);
            lemma_unescape_block(ent, c, er);
            assert(seq![c] + rest =~= s);
        } else if c == '<' {
            let ent = seq!['l', 't'];
            assert(escape_char(c) + er =~= seq!['&'] + ent + seq![';'] + er);
            lemma_unescape_block(ent, c, er);
        } else if c == '>' {
            let ent = seq!['g', 't'];
            assert(escape_char(c) + er =~= seq!['&'] + ent + seq![';'] + er);
            lemma_unescape_block(ent, c, er);
        } else if c == '\'' {
            let ent = seq!['a', 'p', 'o', 's'];
            assert(escape_char(c) + er =~= seq!['&'] + ent + seq![';'] + er);
            lemma_unescape_block(ent, c, er);
        } else if c == '"' {
            let ent = seq!['q', 'u', 'o', 't'];
            assert(escape_char(c) + er =~= seq!['&'] + ent + seq![';'] + er);
            lemma_unescape_block(ent, c, er);
        } else {
            let v = seq![c] + rest;
            assert(spec_escape(s) =~= seq![c] + er);
            assert((seq![c] + er)[0] == c);
            assert((seq![c] + er).skip(1) =~= er);
        }
    }
}

} // verus!
