//! The operation string: `key=value` tokens separated by `,`.
use vstd::prelude::*;
use vstd::string::StringSliceAdditionalSpecFns;

verus! {

pub const COMMA: u8 = 44;

pub const EQUALS: u8 = 61;

pub const PLUS: u8 = 43;

pub const DEFAULT_QUALITY: u8 = 75;

pub const MAX_QUALITY: u8 = 100;

/// The image formats that can be produced.
#[derive(Clone, Copy, Debug, PartialEq, Eq, Structural)]
pub enum OutputFormat {
    Png,
    Jpeg,
    WebP,
    Avif,
}

/// What an operation string asks for, with every default applied.
#[derive(Clone, Copy, Debug, PartialEq, Eq, Structural)]
pub struct Operations {
    /// A positive target width, or `None` to keep the size.
    pub width: Option<u32>,
    /// Encoder quality, at most 100.
    pub quality: u8,
    pub format: OutputFormat,
}

/// Index of the last `b` in `s`, or -1.
pub open spec fn last_index(s: Seq<u8>, b: u8) -> int
    decreases s.len(),
{
    if s.len() == 0 {
        -1
    } else if s.last() == b {
        s.len() - 1
    } else {
        last_index(s.drop_last(), b)
    }
}

/// Index of the first `b` in `s`, or -1.
pub open spec fn first_index(s: Seq<u8>, b: u8) -> int
    decreases s.len(),
{
    if s.len() == 0 {
        -1
    } else if s[0] == b {
        0
    } else {
        let r = first_index(s.drop_first(), b);
        if r < 0 {
            -1
        } else {
            r + 1
        }
    }
}

/// The value that one token gives to `key`: the token must hold `=` and
/// its key (the text before the first `=`) must be `key` and non-empty.
pub open spec fn token_value(t: Seq<u8>, key: Seq<u8>) -> Option<Seq<u8>> {
    let e = first_index(t, EQUALS);
    if e > 0 && t.subrange(0, e) == key {
        Some(t.subrange(e + 1, t.len() as int))
    } else {
        None
    }
}

/// The value of `key` in the operation string `s`: the one of the last
/// token that gives it one.
pub open spec fn lookup(s: Seq<u8>, key: Seq<u8>) -> Option<Seq<u8>>
    decreases s.len(),
{
    let c = last_index(s, COMMA);
    if !(0 <= c < s.len()) {
        token_value(s, key)
    } else {
        match token_value(s.subrange(c + 1, s.len() as int), key) {
            Some(v) => Some(v),
            None => lookup(s.subrange(0, c), key),
        }
    }
}

pub open spec fn is_digit(b: u8) -> bool {
    48 <= b <= 57
}

pub open spec fn all_digits(d: Seq<u8>) -> bool {
    forall|i: int| 0 <= i < d.len() ==> is_digit(#[trigger] d[i])
}

/// The number that a string of decimal digits writes.
pub open spec fn digits_value(d: Seq<u8>) -> nat
    decreases d.len(),
{
    if d.len() == 0 {
        0
    } else {
        digits_value(d.drop_last()) * 10 + (d.last() - 48) as nat
    }
}

/// An unsigned decimal number as Rust's integer parsing reads it: an optional
/// `+`, then at least one digit and nothing else.
pub open spec fn parse_nat(v: Seq<u8>) -> Option<nat> {
    let d = if v.len() > 0 && v[0] == PLUS {
        v.drop_first()
    } else {
        v
    };
    if d.len() > 0 && all_digits(d) {
        Some(digits_value(d))
    } else {
        None
    }
}

pub open spec fn width_key() -> Seq<u8> {
    seq![119u8, 105, 100, 116, 104]
}

pub open spec fn quality_key() -> Seq<u8> {
    seq![113u8, 117, 97, 108, 105, 116, 121]
}

pub open spec fn format_key() -> Seq<u8> {
    seq![102u8, 111, 114, 109, 97, 116]
}

pub open spec fn png_word() -> Seq<u8> {
    seq![112u8, 110, 103]
}

pub open spec fn webp_word() -> Seq<u8> {
    seq![119u8, 101, 98, 112]
}

pub open spec fn avif_word() -> Seq<u8> {
    seq![97u8, 118, 105, 102]
}

/// The target width: present only when it reads as a positive `u32`.
pub open spec fn width_of(s: Seq<u8>) -> Option<u32> {
    match lookup(s, width_key()) {
        Some(v) => match parse_nat(v) {
            Some(n) => if 0 < n <= u32::MAX {
                Some(n as u32)
            } else {
                None
            },
            None => None,
        },
        None => None,
    }
}

/// The quality: a value that reads as a `u8`, lowered to 100 where it is
/// above; 75 where there is none.
pub open spec fn quality_of(s: Seq<u8>) -> u8 {
    match lookup(s, quality_key()) {
        Some(v) => match parse_nat(v) {
            Some(n) => if n <= MAX_QUALITY {
                n as u8
            } else if n <= u8::MAX {
                MAX_QUALITY
            } else {
                DEFAULT_QUALITY
            },
            None => DEFAULT_QUALITY,
        },
        None => DEFAULT_QUALITY,
    }
}

/// The format: `png`, `webp` or `avif`; JPEG for anything else.
pub open spec fn format_of(s: Seq<u8>) -> OutputFormat {
    match lookup(s, format_key()) {
        Some(v) => if v == png_word() {
            OutputFormat::Png
        } else if v == webp_word() {
            OutputFormat::WebP
        } else if v == avif_word() {
            OutputFormat::Avif
        } else {
            OutputFormat::Jpeg
        },
        None => OutputFormat::Jpeg,
    }
}

pub open spec fn operations_of(s: Seq<u8>) -> Operations {
    Operations { width: width_of(s), quality: quality_of(s), format: format_of(s) }
}

pub(crate) proof fn lemma_last_index(s: Seq<u8>, b: u8, i: int)
    requires
        -1 <= i < s.len(),
        i >= 0 ==> s[i] == b,
        forall|k: int| i < k < s.len() ==> s[k] != b,
    ensures
        last_index(s, b) == i,
    decreases s.len(),
{
    if s.len() > 0 && s.last() != b {
        lemma_last_index(s.drop_last(), b, i);
    }
}

pub(crate) proof fn lemma_first_index(s: Seq<u8>, b: u8, i: int)
    requires
        0 <= i <= s.len(),
        i < s.len() ==> s[i] == b,
        forall|k: int| 0 <= k < i ==> s[k] != b,
    ensures
        first_index(s, b) == if i < s.len() { i } else { -1 },
    decreases s.len(),
{
    if s.len() > 0 && s[0] != b {
        lemma_first_index(s.drop_first(), b, i - 1);
    }
}

/// Whether `s[start..end]` is `word`.
fn span_is(s: &[u8], start: usize, end: usize, word: &[u8]) -> (r: bool)
    requires
        start <= end <= s@.len(),
    ensures
        r == (s@.subrange(start as int, end as int) == word@),
{
    if end - start != word.len() {
        return false;
    }
    let mut i: usize = 0;
    while i < word.len()
        invariant
            end - start == word@.len(),
            start <= end <= s@.len(),
            0 <= i <= word@.len(),
            forall|k: int| 0 <= k < i ==> s@[start + k] == word@[k],
        decreases word@.len() - i,
    {
        if s[start + i] != word[i] {
            assert(s@.subrange(start as int, end as int)[i as int] != word@[i as int]);
            return false;
        }
        i = i + 1;
    }
    assert(s@.subrange(start as int, end as int) =~= word@);
    true
}

/// Finds the value that `s[start..end]`, one token, gives to `key`,
/// as the bounds of that value in `s`.
fn token_lookup(s: &[u8], start: usize, end: usize, key: &[u8]) -> (r: Option<(usize, usize)>)
    requires
        start <= end <= s@.len(),
    ensures
        match token_value(s@.subrange(start as int, end as int), key@) {
            Some(v) => match r {
                Some((a, b)) => start <= a <= b <= end && s@.subrange(a as int, b as int) == v,
                None => false,
            },
            None => r is None,
        },
{
    let ghost t = s@.subrange(start as int, end as int);
    let mut i: usize = start;
    while i < end && s[i] != EQUALS
        invariant
            start <= i <= end <= s@.len(),
            t == s@.subrange(start as int, end as int),
            forall|k: int| 0 <= k < i - start ==> t[k] != EQUALS,
        decreases end - i,
    {
        i = i + 1;
    }
    proof {
        lemma_first_index(t, EQUALS, i - start);
    }
    if i < end && i > start && span_is(s, start, i, key) {
        assert(t.subrange(0, i - start) =~= s@.subrange(start as int, i as int));
        assert(t.subrange(i - start + 1, t.len() as int) =~= s@.subrange(i + 1, end as int));
        Some((i + 1, end))
    } else {
        proof {
            if i < end && i > start {
                assert(t.subrange(0, i - start) =~= s@.subrange(start as int, i as int));
            }
        }
        None
    }
}

/// Finds the value of `key` in the operation string `s`, as its bounds in `s`.
fn find_value(s: &[u8], key: &[u8]) -> (r: Option<(usize, usize)>)
    ensures
        match lookup(s@, key@) {
            Some(v) => match r {
                Some((a, b)) => a <= b <= s@.len() && s@.subrange(a as int, b as int) == v,
                None => false,
            },
            None => r is None,
        },
{
    let mut end: usize = s.len();
    assert(s@.subrange(0, s@.len() as int) =~= s@);
    loop
        invariant
            end <= s@.len(),
            lookup(s@, key@) == lookup(s@.subrange(0, end as int), key@),
        decreases end,
    {
        let ghost p = s@.subrange(0, end as int);
        let mut c: usize = end;
        while c > 0 && s[c - 1] != COMMA
            invariant
                c <= end <= s@.len(),
                p == s@.subrange(0, end as int),
                forall|k: int| c <= k < end ==> p[k] != COMMA,
            decreases c,
        {
            c = c - 1;
        }
        proof {
            lemma_last_index(p, COMMA, c - 1);
        }
        if c == 0 {
            assert(p.subrange(0, end as int) =~= p);
            return token_lookup(s, 0, end, key);
        }
        assert(p.subrange(c as int, p.len() as int) =~= s@.subrange(c as int, end as int));
        let found = token_lookup(s, c, end, key);
        if found.is_some() {
            return found;
        }
        assert(p.subrange(0, c - 1) =~= s@.subrange(0, c - 1));
        end = c - 1;
    }
}

/// Reads `s[start..end]` as an unsigned decimal number no larger than `limit`.
fn parse_bounded(s: &[u8], start: usize, end: usize, limit: u32) -> (r: Option<u32>)
    requires
        start <= end <= s@.len(),
    ensures
        match parse_nat(s@.subrange(start as int, end as int)) {
            Some(n) => if n <= limit {
                r == Some(n as u32)
            } else {
                r is None
            },
            None => r is None,
        },
{
    let ghost v = s@.subrange(start as int, end as int);
    let mut a: usize = start;
    if a < end && s[a] == PLUS {
        a = a + 1;
    }
    let ghost d = s@.subrange(a as int, end as int);
    assert(d =~= (if v.len() > 0 && v[0] == PLUS { v.drop_first() } else { v }));
    if a == end {
        return None;
    }
    let cap: u64 = limit as u64 + 1;
    let mut acc: u64 = 0;
    let mut i: usize = a;
    while i < end
        invariant
            start <= a <= i <= end <= s@.len(),
            d == s@.subrange(a as int, end as int),
            v == s@.subrange(start as int, end as int),
            d == (if v.len() > 0 && v[0] == PLUS { v.drop_first() } else { v }),
            d.len() > 0,
            cap == limit + 1,
            cap <= u32::MAX + 1,
            forall|k: int| 0 <= k < i - a ==> is_digit(#[trigger] d[k]),
            acc == if digits_value(d.subrange(0, i - a)) < cap {
                digits_value(d.subrange(0, i - a))
            } else {
                cap as nat
            },
        decreases end - i,
    {
        let b = s[i];
        if b < 48 || b > 57 {
            assert(!is_digit(d[i - a]));
            assert(!all_digits(d));
            assert(parse_nat(v) is None);
            return None;
        }
        let ghost prev = digits_value(d.subrange(0, i - a));
        let ghost dig = (b - 48) as nat;
        assert(d.subrange(0, i - a + 1).drop_last() =~= d.subrange(0, i - a));
        assert(digits_value(d.subrange(0, i - a + 1)) == prev * 10 + dig);
        let ghost old_acc = acc as nat;
        let next: u64 = acc * 10 + (b - 48) as u64;
        acc = if next < cap { next } else { cap };
        proof {
            if prev >= cap {
                assert(next >= cap) by (nonlinear_arith)
                    requires
                        old_acc == cap,
                        next == old_acc * 10 + dig,
                ;
                assert(prev * 10 + dig >= cap) by (nonlinear_arith)
                    requires
                        prev >= cap,
                ;
            }
        }
        i = i + 1;
    }
    assert(d.subrange(0, d.len() as int) =~= d);
    if acc < cap {
        Some(acc as u32)
    } else {
        None
    }
}

/// Reads an operation string. Never fails: tokens without `=` or with an
/// empty key are skipped, unknown keys are ignored, the last value of a key
/// wins, and a missing or unreadable value leaves the default.
pub fn parse_operations(operations: &str) -> (r: Operations)
    ensures
        r == operations_of(operations.spec_bytes()),
{
    let s = operations.as_bytes();
    let width_k: [u8; 5] = [119, 105, 100, 116, 104];
    let quality_k: [u8; 7] = [113, 117, 97, 108, 105, 116, 121];
    let format_k: [u8; 6] = [102, 111, 114, 109, 97, 116];
    let png_w: [u8; 3] = [112, 110, 103];
    let webp_w: [u8; 4] = [119, 101, 98, 112];
    let avif_w: [u8; 4] = [97, 118, 105, 102];
    assert(width_k@ =~= width_key());
    assert(quality_k@ =~= quality_key());
    assert(format_k@ =~= format_key());
    assert(png_w@ =~= png_word());
    assert(webp_w@ =~= webp_word());
    assert(avif_w@ =~= avif_word());

    let width = match find_value(s, width_k.as_slice()) {
        Some((a, b)) => match parse_bounded(s, a, b, u32::MAX) {
            Some(w) => if w > 0 {
                Some(w)
            } else {
                None
            },
            None => None,
        },
        None => None,
    };
    let quality = match find_value(s, quality_k.as_slice()) {
        Some((a, b)) => match parse_bounded(s, a, b, 255) {
            Some(q) => if q <= MAX_QUALITY as u32 {
                q as u8
            } else {
                MAX_QUALITY
            },
            None => DEFAULT_QUALITY,
        },
        None => DEFAULT_QUALITY,
    };
    let format = match find_value(s, format_k.as_slice()) {
        Some((a, b)) => if span_is(s, a, b, png_w.as_slice()) {
            OutputFormat::Png
        } else if span_is(s, a, b, webp_w.as_slice()) {
            OutputFormat::WebP
        } else if span_is(s, a, b, avif_w.as_slice()) {
            OutputFormat::Avif
        } else {
            OutputFormat::Jpeg
        },
        None => OutputFormat::Jpeg,
    };
    Operations { width, quality, format }
}

pub open spec fn no_comma(t: Seq<u8>) -> bool {
    forall|i: int| 0 <= i < t.len() ==> t[i] != COMMA
}

proof fn lemma_lookup_append(s: Seq<u8>, t: Seq<u8>, key: Seq<u8>)
    requires
        no_comma(t),
        token_value(t, key) is None,
    ensures
        lookup(s + seq![COMMA] + t, key) == lookup(s, key),
{
    let full = s + seq![COMMA] + t;
    lemma_last_index(full, COMMA, s.len() as int);
    assert(full.subrange(s.len() as int + 1, full.len() as int) =~= t);
    assert(full.subrange(0, s.len() as int) =~= s);
}

pub proof fn lemma_lookup_prepend(t: Seq<u8>, s: Seq<u8>, key: Seq<u8>)
    requires
        no_comma(t),
    ensures
        lookup(t + seq![COMMA] + s, key) == if lookup(s, key) is Some {
            lookup(s, key)
        } else {
            token_value(t, key)
        },
    decreases s.len(),
{
    let full = t + seq![COMMA] + s;
    let c = last_index(s, COMMA);
    if !(0 <= c < s.len()) {
        lemma_last_index_range(s, COMMA);
        lemma_last_index_none(s, COMMA);
        assert forall|k: int| t.len() < k < full.len() implies full[k] != COMMA by {
            assert(full[k] == s[k - t.len() - 1]);
        }
        lemma_last_index(full, COMMA, t.len() as int);
        assert(full.subrange(t.len() as int + 1, full.len() as int) =~= s);
        assert(full.subrange(0, t.len() as int) =~= t);
        lemma_last_index(t, COMMA, -1);
        assert(lookup(t, key) == token_value(t, key));
    } else {
        lemma_last_index_facts(s, COMMA);
        assert forall|k: int| t.len() + 1 + c < k < full.len() implies full[k] != COMMA by {
            assert(full[k] == s[k - t.len() - 1]);
        }
        lemma_last_index(full, COMMA, t.len() + 1 + c);
        assert(full.subrange(t.len() + 1 + c + 1, full.len() as int) =~= s.subrange(
            c + 1,
            s.len() as int,
        ));
        let pre = s.subrange(0, c);
        assert(full.subrange(0, t.len() + 1 + c) =~= t + seq![COMMA] + pre);
        lemma_lookup_prepend(t, pre, key);
    }
}

proof fn lemma_last_index_range(s: Seq<u8>, b: u8)
    ensures
        -1 <= last_index(s, b) < s.len(),
    decreases s.len(),
{
    if s.len() > 0 && s.last() != b {
        lemma_last_index_range(s.drop_last(), b);
    }
}

proof fn lemma_last_index_none(s: Seq<u8>, b: u8)
    requires
        last_index(s, b) < 0,
    ensures
        forall|k: int| 0 <= k < s.len() ==> s[k] != b,
    decreases s.len(),
{
    if s.len() > 0 {
        lemma_last_index_none(s.drop_last(), b);
        assert forall|k: int| 0 <= k < s.len() implies s[k] != b by {
            if k < s.len() - 1 {
                assert(s.drop_last()[k] == s[k]);
            }
        }
    }
}

proof fn lemma_last_index_facts(s: Seq<u8>, b: u8)
    requires
        0 <= last_index(s, b) < s.len(),
    ensures
        s[last_index(s, b)] == b,
        forall|k: int| last_index(s, b) < k < s.len() ==> s[k] != b,
    decreases s.len(),
{
    if s.last() != b {
        lemma_last_index_range(s.drop_last(), b);
        lemma_last_index_facts(s.drop_last(), b);
        assert forall|k: int| last_index(s, b) < k < s.len() implies s[k] != b by {
            if k < s.len() - 1 {
                assert(s.drop_last()[k] == s[k]);
            }
        }
    }
}

/// A token with no `=`, or with nothing before its first `=`, is dropped:
/// written before or after an operation string, it leaves what the string
/// asks for unchanged, and the string's own tokens still apply.
pub proof fn malformed_token_ignored(s: Seq<u8>, t: Seq<u8>)
    requires
        no_comma(t),
        first_index(t, EQUALS) <= 0,
    ensures
        operations_of(s + seq![COMMA] + t) == operations_of(s),
        operations_of(t + seq![COMMA] + s) == operations_of(s),
{
    lemma_lookup_append(s, t, width_key());
    lemma_lookup_append(s, t, quality_key());
    lemma_lookup_append(s, t, format_key());
    lemma_lookup_prepend(t, s, width_key());
    lemma_lookup_prepend(t, s, quality_key());
    lemma_lookup_prepend(t, s, format_key());
}

/// The first `=` of the token is at `i`.
pub proof fn lemma_first_index_at(t: Seq<u8>, b: u8, i: int)
    requires
        0 <= i < t.len(),
        t[i] == b,
        forall|k: int| 0 <= k < i ==> t[k] != b,
    ensures
        first_index(t, b) == i,
{
    lemma_first_index(t, b, i);
}

/// A token without a comma is its own last token.
pub proof fn lemma_no_comma_last(t: Seq<u8>)
    requires
        no_comma(t),
    ensures
        last_index(t, COMMA) == -1,
{
    lemma_last_index(t, COMMA, -1);
}

/// A token whose only `=` ends it gives its key an empty value, which no key
/// reads as anything but its default: written before an operation string, it
/// leaves what the string asks for unchanged.
pub proof fn empty_value_token_ignored(t: Seq<u8>, s: Seq<u8>)
    requires
        no_comma(t),
        t.len() >= 1,
        first_index(t, EQUALS) == t.len() - 1,
    ensures
        operations_of(t + seq![COMMA] + s) == operations_of(s),
{
    assert(t.subrange(t.len() as int, t.len() as int) =~= Seq::<u8>::empty());
    assert(parse_nat(Seq::<u8>::empty()) is None);
    assert(Seq::<u8>::empty() != png_word());
    assert(Seq::<u8>::empty() != webp_word());
    assert(Seq::<u8>::empty() != avif_word());
    lemma_lookup_prepend(t, s, width_key());
    lemma_lookup_prepend(t, s, quality_key());
    lemma_lookup_prepend(t, s, format_key());
}

/// `foo,quality=,` written before an operation string changes nothing: the
/// stray word is dropped and the empty quality leaves the default.
pub proof fn stray_prefix_ignored(s: Seq<u8>)
    ensures
        operations_of(seq![102u8, 111, 111, COMMA] + quality_key() + seq![EQUALS, COMMA] + s)
            == operations_of(s),
{
    let foo = seq![102u8, 111, 111];
    let q = quality_key() + seq![EQUALS];
    assert(no_comma(foo));
    assert(no_comma(q));
    lemma_first_index(foo, EQUALS, 3);
    lemma_first_index(q, EQUALS, 7);
    empty_value_token_ignored(q, s);
    malformed_token_ignored(q + seq![COMMA] + s, foo);
    assert(seq![102u8, 111, 111, COMMA] + quality_key() + seq![EQUALS, COMMA] + s =~= foo
        + seq![COMMA] + (q + seq![COMMA] + s));
}

} // verus!
