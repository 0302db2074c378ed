//! Text: what counts as blank, how names are ordered, and how numbers and
//! bytes are written out.
use vstd::prelude::*;
use vstd::string::*;
use vstd::utf8::*;

verus! {

/// Anything that can be handed over as an owned string.
pub trait IntoText: Sized {
    /// The characters that are handed over.
    spec fn text_view(&self) -> Seq<char>;

    fn into_text(self) -> (text: String)
        ensures
            text@ == self.text_view(),
    ;
}

impl IntoText for String {
    open spec fn text_view(&self) -> Seq<char> {
        self@
    }

    fn into_text(self) -> (text: String) {
        self
    }
}

impl<'a> IntoText for &'a str {
    open spec fn text_view(&self) -> Seq<char> {
        (*self)@
    }

    fn into_text(self) -> (text: String) {
        self.to_owned()
    }
}

impl<'a> IntoText for &'a String {
    open spec fn text_view(&self) -> Seq<char> {
        (*self)@
    }

    fn into_text(self) -> (text: String) {
        self.clone()
    }
}

/// The characters with the Unicode property `White_Space`.
pub open spec fn white_space(c: char) -> bool {
    ||| '\u{9}' <= c <= '\u{d}'
    ||| c == '\u{20}'
    ||| c == '\u{85}'
    ||| c == '\u{a0}'
    ||| c == '\u{1680}'
    ||| '\u{2000}' <= c <= '\u{200a}'
    ||| c == '\u{2028}'
    ||| c == '\u{2029}'
    ||| c == '\u{202f}'
    ||| c == '\u{205f}'
    ||| c == '\u{3000}'
}

/// Text without a single character that is not white space.
pub open spec fn blank(text: Seq<char>) -> bool {
    forall|i: int| 0 <= i < text.len() ==> white_space(#[trigger] text[i])
}

fn is_white_space(c: char) -> (white: bool)
    ensures
        white == white_space(c),
{
    ('\u{9}' <= c && c <= '\u{d}') || c == '\u{20}' || c == '\u{85}' || c == '\u{a0}' || c
        == '\u{1680}' || ('\u{2000}' <= c && c <= '\u{200a}') || c == '\u{2028}' || c == '\u{2029}'
        || c == '\u{202f}' || c == '\u{205f}' || c == '\u{3000}'
}

/// Whether trimming the text would leave nothing of it.
pub fn is_blank(text: &str) -> (answer: bool)
    ensures
        answer == blank(text@),
{
    for c in chars: text.chars()
        invariant
            chars.seq() == text@,
            forall|i: int| 0 <= i < chars.index() ==> white_space(#[trigger] text@[i]),
    {
        if !is_white_space(c) {
            return false;
        }
    }
    true
}

/// What is not blank stays so when more text follows.
pub proof fn lemma_not_blank(text: Seq<char>, rest: Seq<char>)
    requires
        !blank(text),
    ensures
        !blank(text + rest),
{
    let i = choose|i: int| 0 <= i < text.len() && !white_space(#[trigger] text[i]);
    assert((text + rest)[i] == text[i]);
}

/// At position `i` the two sequences part, and there `a` is the smaller one.
pub open spec fn parts_below(a: Seq<u8>, b: Seq<u8>, i: int) -> bool {
    &&& 0 <= i <= a.len()
    &&& i < b.len()
    &&& forall|j: int| 0 <= j < i ==> #[trigger] a[j] == b[j]
    &&& i == a.len() || a[i] < b[i]
}

/// Lexicographic order on bytes.
pub open spec fn bytes_below(a: Seq<u8>, b: Seq<u8>) -> bool {
    exists|i: int| parts_below(a, b, i)
}

/// The order of text: lexicographic in the bytes of its UTF-8 encoding.
pub open spec fn text_below(a: Seq<char>, b: Seq<char>) -> bool {
    bytes_below(encode_utf8(a), encode_utf8(b))
}

/// No text comes before itself.
pub proof fn lemma_text_below_irreflexive(a: Seq<char>)
    ensures
        !text_below(a, a),
{
}

/// The order of text is transitive.
pub proof fn lemma_text_below_transitive(a: Seq<char>, b: Seq<char>, c: Seq<char>)
    requires
        text_below(a, b),
        text_below(b, c),
    ensures
        text_below(a, c),
{
    let (x, y, z) = (encode_utf8(a), encode_utf8(b), encode_utf8(c));
    let i = choose|i: int| parts_below(x, y, i);
    let j = choose|j: int| parts_below(y, z, j);
    if i <= j {
        assert(parts_below(x, z, i));
    } else {
        assert(parts_below(x, z, j));
    }
}

/// Of two different texts one comes before the other.
pub proof fn lemma_text_below_total(a: Seq<char>, b: Seq<char>)
    ensures
        a == b || text_below(a, b) || text_below(b, a),
{
    let (x, y) = (encode_utf8(a), encode_utf8(b));
    if x == y {
        encode_utf8_decode_utf8(a);
        encode_utf8_decode_utf8(b);
    } else {
        lemma_bytes_part(x, y, 0);
    }
}

proof fn lemma_bytes_part(x: Seq<u8>, y: Seq<u8>, from: int)
    requires
        0 <= from <= x.len(),
        from <= y.len(),
        forall|j: int| 0 <= j < from ==> #[trigger] x[j] == y[j],
        x != y,
    ensures
        bytes_below(x, y) || bytes_below(y, x),
    decreases x.len() - from,
{
    if from == x.len() {
        if from == y.len() {
            assert(x =~= y);
        }
        assert(parts_below(x, y, from));
    } else if from == y.len() {
        assert(parts_below(y, x, from));
    } else if x[from] == y[from] {
        lemma_bytes_part(x, y, from + 1);
    } else if x[from] < y[from] {
        assert(parts_below(x, y, from));
    } else {
        assert(parts_below(y, x, from));
    }
}

/// How one text stands to another.
#[derive(Clone, Copy, Debug, PartialEq, Eq, Structural)]
pub enum Place {
    Before,
    Same,
    After,
}

/// Compares two texts byte by byte.
pub fn compare_text(a: &str, b: &str) -> (place: Place)
    ensures
        place == Place::Before <==> text_below(a@, b@),
        place == Place::Same <==> a@ == b@,
        place == Place::After <==> text_below(b@, a@),
{
    proof {
        encode_utf8_decode_utf8(a@);
        encode_utf8_decode_utf8(b@);
        lemma_text_below_irreflexive(a@);
        lemma_text_below_irreflexive(b@);
        if text_below(a@, b@) && text_below(b@, a@) {
            lemma_text_below_transitive(a@, b@, a@);
        }
    }
    let x = a.as_bytes();
    let y = b.as_bytes();
    let mut i: usize = 0;
    while i < x.len() && i < y.len()
        invariant
            x@ == encode_utf8(a@),
            y@ == encode_utf8(b@),
            i <= x.len(),
            i <= y.len(),
            forall|j: int| 0 <= j < i ==> #[trigger] x@[j] == y@[j],
            text_below(a@, b@) ==> !text_below(b@, a@),
            text_below(a@, b@) || text_below(b@, a@) ==> a@ != b@,
        decreases x.len() - i,
    {
        if x[i] < y[i] {
            assert(parts_below(x@, y@, i as int));
            return Place::Before;
        }
        if x[i] > y[i] {
            assert(parts_below(y@, x@, i as int));
            return Place::After;
        }
        i += 1;
    }
    if i < y.len() {
        assert(parts_below(x@, y@, i as int));
        Place::Before
    } else if i < x.len() {
        assert(parts_below(y@, x@, i as int));
        Place::After
    } else {
        assert(x@ =~= y@);
        Place::Same
    }
}

/// Whether two texts hold the same characters.
pub fn same_text(a: &str, b: &str) -> (same: bool)
    ensures
        same == (a@ == b@),
{
    match compare_text(a, b) {
        Place::Same => true,
        _ => false,
    }
}

/// The decimal digit of a number below ten.
pub open spec fn digit(d: nat) -> char {
    (48 + d) as char
}

/// A number in decimal, without leading zeros.
pub open spec fn decimal(n: nat) -> Seq<char>
    decreases n,
{
    if n < 10 {
        seq![digit(n)]
    } else {
        decimal(n / 10).push(digit(n % 10))
    }
}

/// The value that a string of decimal digits stands for.
pub open spec fn decimal_value(text: Seq<char>) -> int
    decreases text.len(),
{
    if text.len() == 0 {
        0
    } else {
        10 * decimal_value(text.drop_last()) + (text.last() as int - 48)
    }
}

/// A number can be read back from its decimal form, which holds digits only.
pub proof fn lemma_decimal_value(n: nat)
    ensures
        decimal_value(decimal(n)) == n,
        decimal(n).len() > 0,
        forall|i: int| 0 <= i < decimal(n).len() ==> '0' <= #[trigger] decimal(n)[i] <= '9',
    decreases n,
{
    if n < 10 {
        assert(decimal(n).drop_last() =~= Seq::<char>::empty());
        reveal_with_fuel(decimal_value, 2);
    } else {
        lemma_decimal_value(n / 10);
        assert(decimal(n).drop_last() =~= decimal(n / 10));
    }
}

fn digit_text(d: u64) -> (text: &'static str)
    requires
        d < 10,
    ensures
        text@ == seq![digit(d as nat)],
{
    proof {
        reveal_strlit("0");
        reveal_strlit("1");
        reveal_strlit("2");
        reveal_strlit("3");
        reveal_strlit("4");
        reveal_strlit("5");
        reveal_strlit("6");
        reveal_strlit("7");
        reveal_strlit("8");
        reveal_strlit("9");
    }
    let text = match d {
        0 => "0",
        1 => "1",
        2 => "2",
        3 => "3",
        4 => "4",
        5 => "5",
        6 => "6",
        7 => "7",
        8 => "8",
        _ => "9",
    };
    assert(text@ =~= seq![digit(d as nat)]);
    text
}

/// Writes a number in decimal.
pub fn decimal_text(n: u64) -> (text: String)
    ensures
        text@ == decimal(n as nat),
    decreases n,
{
    if n < 10 {
        digit_text(n).to_owned()
    } else {
        let mut text = decimal_text(n / 10);
        text.append(digit_text(n % 10));
        assert(text@ =~= decimal(n as nat));
        text
    }
}

/// The hexadecimal digit, in lower case, of a number below sixteen.
pub open spec fn hex_char(d: int) -> char {
    if d < 10 {
        (48 + d) as char
    } else {
        (87 + d) as char
    }
}

/// Two hexadecimal digits for each byte, the high half first.
pub open spec fn hex(bytes: Seq<u8>) -> Seq<char> {
    Seq::new(
        2 * bytes.len(),
        |i: int|
            if i % 2 == 0 {
                hex_char(bytes[i / 2] as int / 16)
            } else {
                hex_char(bytes[i / 2] as int % 16)
            },
    )
}

fn hex_text(d: u8) -> (text: &'static str)
    requires
        d < 16,
    ensures
        text@ == seq![hex_char(d as int)],
{
    if d < 10 {
        digit_text(d as u64)
    } else {
        proof {
            reveal_strlit("a");
            reveal_strlit("b");
            reveal_strlit("c");
            reveal_strlit("d");
            reveal_strlit("e");
            reveal_strlit("f");
        }
        let text = match d {
            10 => "a",
            11 => "b",
            12 => "c",
            13 => "d",
            14 => "e",
            _ => "f",
        };
        assert(text@ =~= seq![hex_char(d as int)]);
        text
    }
}

/// Writes bytes in hexadecimal.
pub fn hex_digest(bytes: &[u8]) -> (encoded: String)
    ensures
        encoded@ == hex(bytes@),
{
    let mut encoded = String::new();
    let mut i: usize = 0;
    while i < bytes.len()
        invariant
            i <= bytes.len(),
            encoded@ == hex(bytes@.take(i as int)),
        decreases bytes.len() - i,
    {
        let byte = bytes[i];
        encoded.append(hex_text(byte / 16));
        encoded.append(hex_text(byte % 16));
        assert(encoded@ =~= hex(bytes@.take(i + 1)));
        i += 1;
    }
    assert(bytes@.take(i as int) =~= bytes@);
    encoded
}

/// Joins two pieces of text.
pub fn join2(a: &str, b: &str) -> (text: String)
    ensures
        text@ == a@ + b@,
{
    let mut text = a.to_owned();
    text.append(b);
    text
}

/// Joins three pieces of text.
pub fn join3(a: &str, b: &str, c: &str) -> (text: String)
    ensures
        text@ == a@ + b@ + c@,
{
    let mut text = join2(a, b);
    text.append(c);
    text
}

} // verus!
