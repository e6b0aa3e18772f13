//! Text: byte sizes, ordering, decimal numerals, searching and joining.
//!
//! A string is modelled by its characters, `Seq<char>`. Its size and its place
//! in an ordering are those of its UTF-8 bytes.

use vstd::prelude::*;
use vstd::utf8::{encode_utf8, is_ascii_chars};

verus! {

broadcast use vstd::string::group_string_axioms;

// ----- equality -----

/// Two texts are equal where their encodings are.
pub proof fn lemma_encoding_injective(a: Seq<char>, b: Seq<char>)
    requires
        encode_utf8(a) == encode_utf8(b),
    ensures
        a == b,
{
    vstd::utf8::encode_utf8_decode_utf8(a);
    vstd::utf8::encode_utf8_decode_utf8(b);
}

/// Whether two byte strings are equal.
fn same_bytes(a: &[u8], b: &[u8]) -> (r: bool)
    ensures
        r == (a@ == b@),
{
    if a.len() != b.len() {
        return false;
    }
    let n: usize = a.len();
    let mut i: usize = 0;
    while i < n
        invariant
            n == a@.len(),
            n == b@.len(),
            i <= n,
            forall|k: int| 0 <= k < i ==> a@[k] == b@[k],
        decreases n - i,
    {
        if a[i] != b[i] {
            return false;
        }
        i = i + 1;
    }
    assert(a@ =~= b@);
    true
}

/// Whether two texts are equal.
pub fn same_text(a: &str, b: &str) -> (r: bool)
    ensures
        r == (a@ == b@),
{
    let r = same_bytes(a.as_bytes(), b.as_bytes());
    proof {
        if r {
            lemma_encoding_injective(a@, b@);
        }
    }
    r
}

/// A copy of a text.
pub fn owned(s: &str) -> (r: String)
    ensures
        r@ == s@,
{
    s.to_owned()
}

// ----- size in bytes -----

/// How many bytes a text takes in UTF-8.
pub open spec fn size(s: Seq<char>) -> nat {
    encode_utf8(s).len()
}

/// The encoding of a concatenation is the concatenation of the encodings.
pub proof fn lemma_encode_concat(a: Seq<char>, b: Seq<char>)
    ensures
        encode_utf8(a + b) == encode_utf8(a) + encode_utf8(b),
    decreases a.len(),
{
    if a.len() == 0 {
        assert(a + b =~= b);
        assert(encode_utf8(a) + encode_utf8(b) =~= encode_utf8(b));
    } else {
        let t = a.drop_first();
        assert((a + b).drop_first() =~= t + b);
        lemma_encode_concat(t, b);
        let head = vstd::utf8::encode_scalar(a[0] as u32);
        assert(head + (encode_utf8(t) + encode_utf8(b)) =~= (head + encode_utf8(t)) + encode_utf8(b));
    }
}

/// Sizes add up.
pub proof fn lemma_size_concat(a: Seq<char>, b: Seq<char>)
    ensures
        size(a + b) == size(a) + size(b),
{
    lemma_encode_concat(a, b);
}

/// An ASCII text takes one byte per character.
pub proof fn lemma_size_ascii(s: Seq<char>)
    requires
        is_ascii_chars(s),
    ensures
        size(s) == s.len(),
{
    vstd::utf8::is_ascii_chars_encode_utf8(s);
}

/// The number of bytes of a text.
pub fn byte_size(s: &str) -> (r: usize)
    ensures
        r == size(s@),
{
    s.as_bytes().len()
}

// ----- ordering -----

/// Lexicographic order of byte strings.
pub open spec fn bytes_le(a: Seq<u8>, b: Seq<u8>) -> bool
    decreases a.len(),
{
    if a.len() == 0 {
        true
    } else if b.len() == 0 {
        false
    } else if a[0] == b[0] {
        bytes_le(a.drop_first(), b.drop_first())
    } else {
        a[0] < b[0]
    }
}

/// The order of texts: lexicographic by UTF-8 bytes, which is the order in
/// which `str` compares.
pub open spec fn text_le(a: Seq<char>, b: Seq<char>) -> bool {
    bytes_le(encode_utf8(a), encode_utf8(b))
}

proof fn lemma_bytes_le_total(a: Seq<u8>, b: Seq<u8>)
    ensures
        bytes_le(a, b) || bytes_le(b, a),
        bytes_le(a, b) && bytes_le(b, a) ==> a == b,
    decreases a.len(),
{
    if a.len() == 0 {
        if b.len() == 0 {
            assert(a =~= b);
        }
    } else if b.len() > 0 && a[0] == b[0] {
        lemma_bytes_le_total(a.drop_first(), b.drop_first());
        if a.drop_first() == b.drop_first() {
            assert(a =~= seq![a[0]] + a.drop_first());
            assert(b =~= seq![b[0]] + b.drop_first());
        }
    }
}

proof fn lemma_bytes_le_transitive(a: Seq<u8>, b: Seq<u8>, c: Seq<u8>)
    requires
        bytes_le(a, b),
        bytes_le(b, c),
    ensures
        bytes_le(a, c),
    decreases a.len(),
{
    if a.len() > 0 && b.len() > 0 && c.len() > 0 && a[0] == b[0] && b[0] == c[0] {
        lemma_bytes_le_transitive(a.drop_first(), b.drop_first(), c.drop_first());
    }
}

/// Any two texts are comparable, and texts that are below each other are equal.
pub proof fn lemma_text_le_total(a: Seq<char>, b: Seq<char>)
    ensures
        text_le(a, b) || text_le(b, a),
        text_le(a, b) && text_le(b, a) ==> a == b,
{
    lemma_bytes_le_total(encode_utf8(a), encode_utf8(b));
    if encode_utf8(a) == encode_utf8(b) {
        lemma_encoding_injective(a, b);
    }
}

/// The order of texts is transitive.
pub proof fn lemma_text_le_transitive(a: Seq<char>, b: Seq<char>, c: Seq<char>)
    requires
        text_le(a, b),
        text_le(b, c),
    ensures
        text_le(a, c),
{
    lemma_bytes_le_transitive(encode_utf8(a), encode_utf8(b), encode_utf8(c));
}

proof fn lemma_bytes_le_skip(a: Seq<u8>, b: Seq<u8>, n: int)
    requires
        0 <= n <= a.len(),
        n <= b.len(),
        forall|k: int| 0 <= k < n ==> a[k] == b[k],
    ensures
        bytes_le(a, b) == bytes_le(a.subrange(n, a.len() as int), b.subrange(n, b.len() as int)),
    decreases n,
{
    if n == 0 {
        assert(a.subrange(0, a.len() as int) =~= a);
        assert(b.subrange(0, b.len() as int) =~= b);
    } else {
        let a1 = a.drop_first();
        let b1 = b.drop_first();
        assert forall|k: int| 0 <= k < n - 1 implies a1[k] == b1[k] by {
            assert(a1[k] == a[k + 1]);
        }
        lemma_bytes_le_skip(a1, b1, n - 1);
        assert(a1.subrange(n - 1, a1.len() as int) =~= a.subrange(n, a.len() as int));
        assert(b1.subrange(n - 1, b1.len() as int) =~= b.subrange(n, b.len() as int));
        assert(a[0] == b[0]);
    }
}

/// Whether two texts differ first at `i`, where `a` has the smaller character.
pub open spec fn smaller_at(a: Seq<char>, b: Seq<char>, i: int) -> bool {
    0 <= i < a.len() && i < b.len() && a.take(i) == b.take(i) && a[i] < b[i]
}

/// Whether `a` has the smaller character where the two texts first differ.
pub open spec fn comes_before(a: Seq<char>, b: Seq<char>) -> bool {
    exists|i: int| smaller_at(a, b, i)
}

/// Of ASCII texts, the one with the smaller character where they first differ is
/// the smaller one.
pub proof fn lemma_comes_before_ascii(a: Seq<char>, b: Seq<char>)
    requires
        is_ascii_chars(a),
        is_ascii_chars(b),
        comes_before(a, b),
    ensures
        text_le(a, b),
        !text_le(b, a),
{
    let i = choose|i: int| smaller_at(a, b, i);
    let x = encode_utf8(a);
    let y = encode_utf8(b);
    vstd::utf8::is_ascii_chars_encode_utf8(a);
    vstd::utf8::is_ascii_chars_encode_utf8(b);
    assert forall|k: int| 0 <= k < i implies x[k] == y[k] by {
        assert(a.take(i)[k] == a[k]);
        assert(b.take(i)[k] == b[k]);
        assert(a[k] as u8 == x[k]);
        assert(b[k] as u8 == y[k]);
    }
    assert(a[i] as u8 == x[i]);
    assert(b[i] as u8 == y[i]);
    lemma_bytes_le_skip(x, y, i);
    lemma_bytes_le_skip(y, x, i);
    assert(x.subrange(i, x.len() as int)[0] == x[i]);
    assert(y.subrange(i, y.len() as int)[0] == y[i]);
}

/// What stands behind texts that differ, and what stands before both, does not
/// change which of them comes first.
pub proof fn lemma_comes_before_within(
    p: Seq<char>,
    a: Seq<char>,
    b: Seq<char>,
    x: Seq<char>,
    y: Seq<char>,
)
    requires
        comes_before(a, b),
    ensures
        comes_before(p + a, p + b),
        comes_before(a + x, b + y),
{
    let i = choose|i: int| smaller_at(a, b, i);
    let j = p.len() + i;
    assert((p + a).take(j) =~= p + a.take(i));
    assert((p + b).take(j) =~= p + b.take(i));
    assert(smaller_at(p + a, p + b, j));
    assert((a + x).take(i) =~= a.take(i));
    assert((b + y).take(i) =~= b.take(i));
    assert(smaller_at(a + x, b + y, i));
}

/// Whether the first text comes no later than the second.
pub fn text_at_most(a: &str, b: &str) -> (r: bool)
    ensures
        r == text_le(a@, b@),
{
    let x = a.as_bytes();
    let y = b.as_bytes();
    let mut i: usize = 0;
    while i < x.len() && i < y.len() && x[i] == y[i]
        invariant
            x@ == encode_utf8(a@),
            y@ == encode_utf8(b@),
            i <= x@.len(),
            i <= y@.len(),
            forall|k: int| 0 <= k < i ==> x@[k] == y@[k],
        decreases x@.len() - i,
    {
        i = i + 1;
    }
    proof {
        lemma_bytes_le_skip(x@, y@, i as int);
    }
    if i >= x.len() {
        true
    } else if i >= y.len() {
        false
    } else {
        x[i] < y[i]
    }
}

// ----- decimal numerals -----

/// The character of a decimal digit.
pub open spec fn digit(d: nat) -> char
    recommends
        d < 10,
{
    (48 + d) as char
}

/// The decimal numeral of a number, without leading zeros.
pub open spec fn decimal(n: nat) -> Seq<char>
    decreases n,
{
    if n < 10 {
        seq![digit(n)]
    } else {
        decimal(n / 10).push(digit(n % 10))
    }
}

/// The last `width` decimal digits of a number, with leading zeros.
pub open spec fn last_digits(n: nat, width: nat) -> Seq<char>
    decreases width,
{
    if width == 0 {
        seq![]
    } else {
        last_digits(n / 10, (width - 1) as nat).push(digit(n % 10))
    }
}

/// The decimal numeral of a number, padded with zeros to at least `width`
/// digits.
pub open spec fn padded(n: nat, width: nat) -> Seq<char> {
    if decimal(n).len() >= width {
        decimal(n)
    } else {
        last_digits(n, width)
    }
}

/// Ten to the power `k`.
pub open spec fn pow10(k: nat) -> nat
    decreases k,
{
    if k == 0 {
        1
    } else {
        10 * pow10((k - 1) as nat)
    }
}

/// A number below `10^k` has at most `k` digits.
pub proof fn lemma_decimal_len(n: nat, k: nat)
    requires
        n < pow10(k),
        k >= 1,
    ensures
        1 <= decimal(n).len() <= k,
    decreases k,
{
    if n >= 10 {
        if k == 1 {
            assert(pow10(0) == 1);
        } else {
            assert(n / 10 < pow10((k - 1) as nat));
            lemma_decimal_len(n / 10, (k - 1) as nat);
        }
    }
}

/// A number of at least `10^k` has more than `k` digits.
proof fn lemma_decimal_len_lower(n: nat, k: nat)
    requires
        n >= pow10(k),
    ensures
        decimal(n).len() > k,
    decreases k,
{
    if k > 0 {
        lemma_pow10_positive((k - 1) as nat);
        assert(n / 10 >= pow10((k - 1) as nat));
        lemma_decimal_len_lower(n / 10, (k - 1) as nat);
    } else {
        lemma_decimal_nonempty(n);
    }
}

pub proof fn lemma_pow10_positive(k: nat)
    ensures
        pow10(k) >= 1,
    decreases k,
{
    if k > 0 {
        lemma_pow10_positive((k - 1) as nat);
    }
}

proof fn lemma_decimal_nonempty(n: nat)
    ensures
        decimal(n).len() >= 1,
    decreases n,
{
    if n >= 10 {
        lemma_decimal_nonempty(n / 10);
    }
}

/// A number below `10^width` is padded to exactly `width` characters.
pub proof fn lemma_padded_is_last_digits(n: nat, width: nat)
    requires
        n < pow10(width),
        width >= 1,
    ensures
        padded(n, width) == last_digits(n, width),
        padded(n, width).len() == width,
    decreases width,
{
    lemma_decimal_len(n, width);
    lemma_last_digits_len(n, width);
    if decimal(n).len() == width {
        lemma_decimal_as_last_digits(n, width);
    }
}

proof fn lemma_last_digits_len(n: nat, width: nat)
    ensures
        last_digits(n, width).len() == width,
    decreases width,
{
    if width > 0 {
        lemma_last_digits_len(n / 10, (width - 1) as nat);
    }
}

proof fn lemma_decimal_as_last_digits(n: nat, width: nat)
    requires
        decimal(n).len() == width,
    ensures
        decimal(n) == last_digits(n, width),
    decreases width,
{
    lemma_decimal_nonempty(n);
    if n < 10 {
        assert(width == 1);
        assert(last_digits(n / 10, 0) =~= seq![]);
        assert(last_digits(n, 1) =~= seq![digit(n % 10)]);
    } else {
        lemma_decimal_as_last_digits(n / 10, (width - 1) as nat);
    }
}

/// Numerals of the same width are equal only for equal numbers.
pub proof fn lemma_last_digits_injective(a: nat, b: nat, width: nat)
    requires
        a < pow10(width),
        b < pow10(width),
        last_digits(a, width) == last_digits(b, width),
    ensures
        a == b,
    decreases width,
{
    if width > 0 {
        let x = last_digits(a, width);
        let y = last_digits(b, width);
        let w = (width - 1) as nat;
        assert(x.drop_last() =~= last_digits(a / 10, w));
        assert(y.drop_last() =~= last_digits(b / 10, w));
        assert(x.last() == digit(a % 10));
        assert(y.last() == digit(b % 10));
        assert(a % 10 == b % 10);
        lemma_last_digits_injective(a / 10, b / 10, w);
    }
}

/// Of numerals of the same width, that of the smaller number comes before.
pub proof fn lemma_last_digits_ordered(a: nat, b: nat, width: nat)
    requires
        a < b,
        b < pow10(width),
    ensures
        comes_before(last_digits(a, width), last_digits(b, width)),
    decreases width,
{
    if width == 0 {
        assert(pow10(0) == 1);
    } else {
        let w = (width - 1) as nat;
        let x = last_digits(a / 10, w);
        let y = last_digits(b / 10, w);
        lemma_last_digits_len(a / 10, w);
        lemma_last_digits_len(b / 10, w);
        let dx = seq![digit(a % 10)];
        let dy = seq![digit(b % 10)];
        assert(last_digits(a, width) =~= x + dx);
        assert(last_digits(b, width) =~= y + dy);
        if a / 10 < b / 10 {
            lemma_last_digits_ordered(a / 10, b / 10, w);
            lemma_comes_before_within(x, x, y, dx, dy);
        } else {
            assert(a / 10 == b / 10);
            assert(a % 10 < b % 10);
            assert((x + dx).take(w as int) =~= (y + dy).take(w as int));
            assert(smaller_at(x + dx, y + dy, w as int));
        }
    }
}

/// Numerals are ASCII.
pub proof fn lemma_decimal_ascii(n: nat)
    ensures
        is_ascii_chars(decimal(n)),
    decreases n,
{
    if n >= 10 {
        lemma_decimal_ascii(n / 10);
    }
}

/// Fixed-width numerals are ASCII.
pub proof fn lemma_last_digits_ascii(n: nat, width: nat)
    ensures
        is_ascii_chars(last_digits(n, width)),
    decreases width,
{
    if width > 0 {
        lemma_last_digits_ascii(n / 10, (width - 1) as nat);
    }
}

/// A decimal digit as text.
fn digit_text(d: u64) -> (r: &'static str)
    requires
        d < 10,
    ensures
        r@ == seq![digit(d as nat)],
{
    proof {
        reveal_strlit("0");
        reveal_strlit("1");
        reveal_strlit("2");
        reveal_strlit("3");
        reveal_strlit("4");
        reveal_strlit("5");
        reveal_strlit("6");
        reveal_strlit("7");
        reveal_strlit("8");
        reveal_strlit("9");
    }
    let r = match d {
        0 => "0",
        1 => "1",
        2 => "2",
        3 => "3",
        4 => "4",
        5 => "5",
        6 => "6",
        7 => "7",
        8 => "8",
        _ => "9",
    };
    assert(r@ =~= seq![digit(d as nat)]);
    r
}

/// The decimal numeral of a number.
pub fn decimal_text(n: u64) -> (r: String)
    ensures
        r@ == decimal(n as nat),
    decreases n,
{
    if n < 10 {
        owned(digit_text(n))
    } else {
        let mut r = decimal_text(n / 10);
        let d = digit_text(n % 10);
        r.append(d);
        assert(r@ =~= decimal((n / 10) as nat).push(digit((n % 10) as nat)));
        r
    }
}

/// The last `width` digits of a number.
fn last_digits_text(n: u64, width: usize) -> (r: String)
    ensures
        r@ == last_digits(n as nat, width as nat),
    decreases width,
{
    if width == 0 {
        let r = String::new();
        assert(r@ =~= seq![]);
        r
    } else {
        let mut r = last_digits_text(n / 10, width - 1);
        let d = digit_text(n % 10);
        r.append(d);
        assert(r@ =~= last_digits((n / 10) as nat, (width - 1) as nat).push(digit((n % 10) as nat)));
        r
    }
}

/// The decimal numeral of a number, padded with zeros to at least `width`
/// digits.
pub fn padded_text(n: u64, width: usize) -> (r: String)
    ensures
        r@ == padded(n as nat, width as nat),
{
    let r = decimal_text(n);
    if digits_of(n) >= width {
        r
    } else {
        last_digits_text(n, width)
    }
}

/// The number of digits of a numeral.
fn digits_of(n: u64) -> (r: usize)
    ensures
        r == decimal(n as nat).len(),
        r <= 20,
    decreases n,
{
    proof {
        assert(pow10(20) > 0xffff_ffff_ffff_ffff) by {
            reveal_with_fuel(pow10, 21);
        }
        lemma_decimal_len(n as nat, 20);
    }
    if n < 10 {
        1
    } else {
        let k: usize = digits_of(n / 10);
        k + 1
    }
}

// ----- characters -----

/// The characters of a text.
pub fn chars_of(s: &str) -> (r: Vec<char>)
    ensures
        r@ == s@,
{
    let mut r: Vec<char> = Vec::new();
    for c in it: s.chars()
        invariant
            it.seq() == s@,
            r@ == s@.take(it.index() as int),
    {
        r.push(c);
        assert(r@ =~= s@.take(it.index() as int + 1));
    }
    assert(s@.take(s@.len() as int) =~= s@);
    r
}

/// Whether `p` stands in `s` at position `at`.
pub open spec fn occurs_at(s: Seq<char>, p: Seq<char>, at: int) -> bool {
    0 <= at && at + p.len() <= s.len() && s.subrange(at, at + p.len()) == p
}

/// Whether `p` is a part of `s`.
pub open spec fn contains(s: Seq<char>, p: Seq<char>) -> bool {
    exists|at: int| occurs_at(s, p, at)
}

/// Whether `s` begins with `p`.
pub open spec fn starts_with(s: Seq<char>, p: Seq<char>) -> bool {
    occurs_at(s, p, 0)
}

fn matches_at(s: &Vec<char>, p: &Vec<char>, at: usize) -> (r: bool)
    ensures
        r == occurs_at(s@, p@, at as int),
{
    if p.len() > s.len() || at > s.len() - p.len() {
        return false;
    }
    let mut i: usize = 0;
    while i < p.len()
        invariant
            at + p@.len() <= s.len(),
            i <= p@.len(),
            forall|k: int| 0 <= k < i ==> s@[at + k] == p@[k],
        decreases p@.len() - i,
    {
        if s[at + i] != p[i] {
            proof {
                if s@.subrange(at as int, at + p@.len()) == p@ {
                    assert(s@.subrange(at as int, at + p@.len())[i as int] == s@[at + i]);
                }
            }
            return false;
        }
        i = i + 1;
    }
    assert(s@.subrange(at as int, at + p@.len()) =~= p@);
    true
}

/// Whether `s` begins with `p`.
pub fn has_prefix(s: &str, p: &str) -> (r: bool)
    ensures
        r == starts_with(s@, p@),
{
    let x = chars_of(s);
    let y = chars_of(p);
    matches_at(&x, &y, 0)
}

/// Whether `p` is a part of `s`.
pub fn has_part(s: &str, p: &str) -> (r: bool)
    ensures
        r == contains(s@, p@),
{
    let x = chars_of(s);
    let y = chars_of(p);
    if y.len() > x.len() {
        return false;
    }
    let last: usize = x.len() - y.len();
    let mut at: usize = 0;
    loop
        invariant
            x@ == s@,
            y@ == p@,
            y@.len() <= x@.len(),
            last == x@.len() - y@.len(),
            at <= last,
            forall|k: int| 0 <= k < at ==> !occurs_at(s@, p@, k),
        decreases last - at,
    {
        if matches_at(&x, &y, at) {
            assert(occurs_at(s@, p@, at as int));
            return true;
        }
        if at == last {
            return false;
        }
        at = at + 1;
    }
}

// ----- paths -----

/// Whether a path is a directory or lies under it. The parts of paths are
/// separated by slashes.
pub open spec fn at_or_under(path: Seq<char>, dir: Seq<char>) -> bool {
    ||| path == dir
    ||| starts_with(path, dir) && (dir.len() > 0 && dir.last() == '/' || dir.len() < path.len()
        && path[dir.len() as int] == '/')
}

/// Whether a path is a directory or lies under it. The parts of paths are
/// separated by slashes.
pub fn is_at_or_under(path: &str, dir: &str) -> (r: bool)
    ensures
        r == at_or_under(path@, dir@),
{
    let p = chars_of(path);
    let d = chars_of(dir);
    if !matches_at(&p, &d, 0) {
        proof {
            assert(path@.subrange(0, path@.len() as int) =~= path@);
        }
        return false;
    }
    let n: usize = d.len();
    if n == p.len() {
        assert(path@.subrange(0, n as int) =~= path@);
        return true;
    }
    (n > 0 && d[n - 1] == '/') || p[n] == '/'
}

// ----- quoting and case -----

/// What `format!("{:?}")` makes of a text.
pub uninterp spec fn debug_text(s: Seq<char>) -> Seq<char>;

/// Whether a character is printable ASCII other than the quote and the
/// backslash.
pub open spec fn is_plain(c: char) -> bool {
    ' ' <= c <= '~' && c != '"' && c != '\\'
}

/// A text between quotes, as the `Debug` implementation of `str` writes it
/// through `format!`.
///
/// Claimed of it: the result is determined by the text, and a text of printable
/// ASCII without quotes and backslashes is put between quotes unchanged. How
/// other characters are escaped is not stated.
#[verifier::external_body]
pub(crate) fn debug_quoted(s: &str) -> (r: String)
    ensures
        r@ == debug_text(s@),
        (forall|i: int| 0 <= i < s@.len() ==> is_plain(#[trigger] s@[i])) ==> r@ == seq!['"'] + s@
            + seq!['"'],
{
    format!("{:?}", s)
}

/// What `str::to_lowercase` makes of a text.
pub uninterp spec fn lowercase(s: Seq<char>) -> Seq<char>;

/// An ASCII character in lower case.
pub open spec fn ascii_lower(c: char) -> char {
    if 'A' <= c <= 'Z' {
        (c as u32 + 32) as char
    } else {
        c
    }
}

/// `str::to_lowercase`.
///
/// Claimed of it: the result is determined by the text, an ASCII text is
/// lowered letter by letter, and the empty text alone gives the empty text. The
/// mapping of other characters is not stated.
#[verifier::external_body]
pub(crate) fn lowercased(s: &str) -> (r: String)
    ensures
        r@ == lowercase(s@),
        is_ascii_chars(s@) ==> r@ == s@.map_values(|c: char| ascii_lower(c)),
        r@.len() == 0 <==> s@.len() == 0,
{
    s.to_lowercase()
}

// ----- joining -----

/// The texts one after the other, with `sep` between neighbours.
pub open spec fn joined(parts: Seq<Seq<char>>, sep: Seq<char>) -> Seq<char>
    decreases parts.len(),
{
    if parts.len() == 0 {
        seq![]
    } else if parts.len() == 1 {
        parts[0]
    } else {
        joined(parts.drop_last(), sep) + sep + parts.last()
    }
}

/// The views of a list of texts.
pub open spec fn texts(v: Seq<String>) -> Seq<Seq<char>> {
    v.map_values(|s: String| s@)
}

/// Joins texts with a separator.
pub fn join(parts: &Vec<String>, sep: &str) -> (r: String)
    ensures
        r@ == joined(texts(parts@), sep@),
{
    let mut out = String::new();
    let mut i: usize = 0;
    assert(texts(parts@).take(0) =~= seq![]);
    assert(out@ =~= seq![]);
    while i < parts.len()
        invariant
            i <= parts@.len(),
            out@ == joined(texts(parts@).take(i as int), sep@),
        decreases parts@.len() - i,
    {
        proof {
            let t = texts(parts@).take(i as int + 1);
            assert(t.drop_last() =~= texts(parts@).take(i as int));
            assert(t.last() == parts@[i as int]@);
            if i == 0 {
                assert(seq![] + parts@[0]@ =~= parts@[0]@);
            }
        }
        if i > 0 {
            out.append(sep);
        }
        out.append(parts[i].as_str());
        i = i + 1;
    }
    assert(texts(parts@).take(parts@.len() as int) =~= texts(parts@));
    out
}

/// One text after another.
pub fn glue2(a: &str, b: &str) -> (r: String)
    ensures
        r@ == a@ + b@,
{
    let mut r = owned(a);
    r.append(b);
    r
}

/// Three texts one after the other.
pub fn glue3(a: &str, b: &str, c: &str) -> (r: String)
    ensures
        r@ == a@ + b@ + c@,
{
    let mut r = owned(a);
    r.append(b);
    r.append(c);
    r
}

/// Five texts one after the other.
pub fn glue5(a: &str, b: &str, c: &str, d: &str, e: &str) -> (r: String)
    ensures
        r@ == a@ + b@ + c@ + d@ + e@,
{
    let mut r = owned(a);
    r.append(b);
    r.append(c);
    r.append(d);
    r.append(e);
    r
}

} // verus!
