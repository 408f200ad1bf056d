//! Plain text: where it comes from, how it is ordered, padded and written out
//! in decimal.

use vstd::prelude::*;
use vstd::string::*;
use vstd::utf8::*;

verus! {

/// A value that can be handed over as text: a borrowed or an owned string.
pub trait IntoText: Sized {
    /// The characters that are handed over.
    spec fn text(self) -> Seq<char>;

    /// Turns the value into an owned string.
    fn into_text(self) -> (res: String)
        ensures
            res@ == self.text(),
    ;
}

impl IntoText for String {
    open spec fn text(self) -> Seq<char> {
        self@
    }

    fn into_text(self) -> (res: String) {
        self
    }
}

impl IntoText for &str {
    open spec fn text(self) -> Seq<char> {
        self@
    }

    fn into_text(self) -> (res: String) {
        self.to_owned()
    }
}

impl IntoText for &String {
    open spec fn text(self) -> Seq<char> {
        self@
    }

    fn into_text(self) -> (res: String) {
        self.clone()
    }
}

////////////////////////////////////////////////////////////////////////////////
// Byte order

/// `a` comes before `b` when the first place where they differ is smaller in `a`,
/// or when `a` is a proper prefix of `b`.
pub open spec fn bytes_before(a: Seq<u8>, b: Seq<u8>) -> bool {
    exists|k: int| first_difference(a, b, k)
}

/// The two sequences agree before `k`, and `k` is where `a` ends or is smaller.
pub open spec fn first_difference(a: Seq<u8>, b: Seq<u8>, k: int) -> bool {
    &&& 0 <= k <= a.len()
    &&& k < b.len()
    &&& forall|j: int| 0 <= j < k ==> a[j] == b[j]
    &&& k == a.len() || a[k] < b[k]
}

/// The order of strings: that of their UTF-8 bytes.
pub open spec fn text_before(a: Seq<char>, b: Seq<char>) -> bool {
    bytes_before(encode_utf8(a), encode_utf8(b))
}

/// How one string stands to another in byte order.
#[derive(Debug, Clone, Copy, PartialEq, Eq, Structural)]
pub enum TextOrder {
    Before,
    Same,
    After,
}

/// Two strings with the same bytes are the same string.
pub proof fn lemma_bytes_determine_text(a: Seq<char>, b: Seq<char>)
    requires
        encode_utf8(a) == encode_utf8(b),
    ensures
        a == b,
{
    encode_utf8_decode_utf8(a);
    encode_utf8_decode_utf8(b);
}

/// No string comes before itself.
pub proof fn lemma_order_irreflexive(a: Seq<char>)
    ensures
        !text_before(a, a),
{
}

/// The order is transitive.
pub proof fn lemma_order_transitive(a: Seq<char>, b: Seq<char>, c: Seq<char>)
    requires
        text_before(a, b),
        text_before(b, c),
    ensures
        text_before(a, c),
{
    let (x, y, z) = (encode_utf8(a), encode_utf8(b), encode_utf8(c));
    let k = choose|k: int| first_difference(x, y, k);
    let l = choose|l: int| first_difference(y, z, l);
    let m = if k < l {
        k
    } else {
        l
    };
    assert(first_difference(x, z, m));
}

/// Of two different strings, one comes before the other.
pub proof fn lemma_order_total(a: Seq<char>, b: Seq<char>)
    requires
        a != b,
    ensures
        text_before(a, b) || text_before(b, a),
{
    if encode_utf8(a) == encode_utf8(b) {
        lemma_bytes_determine_text(a, b);
    }
    lemma_find_difference(encode_utf8(a), encode_utf8(b), 0);
}

/// Two different sequences that agree before `from` differ somewhere after it.
proof fn lemma_find_difference(x: Seq<u8>, y: Seq<u8>, from: int)
    requires
        x != y,
        0 <= from <= x.len(),
        from <= y.len(),
        forall|j: int| 0 <= j < from ==> x[j] == y[j],
    ensures
        bytes_before(x, y) || bytes_before(y, x),
    decreases x.len() - from,
{
    if from < x.len() && from < y.len() && x[from] == y[from] {
        lemma_find_difference(x, y, from + 1);
    } else if from < y.len() && (from == x.len() || x[from] < y[from]) {
        assert(first_difference(x, y, from));
    } else if from < x.len() {
        assert(first_difference(y, x, from));
    } else {
        assert(x =~= y);
    }
}

/// Places `a` before, at or after `b` in byte order.
pub fn byte_order(a: &str, b: &str) -> (res: TextOrder)
    ensures
        res == TextOrder::Before <==> text_before(a@, b@),
        res == TextOrder::Same <==> a@ == b@,
        res == TextOrder::After <==> text_before(b@, a@),
{
    let x = a.as_bytes();
    let y = b.as_bytes();
    proof {
        lemma_order_irreflexive(a@);
        if text_before(a@, b@) && text_before(b@, a@) {
            lemma_order_transitive(a@, b@, a@);
        }
    }
    let mut i: usize = 0;
    while i < x.len() && i < y.len()
        invariant
            x@ == encode_utf8(a@),
            y@ == encode_utf8(b@),
            i <= x@.len(),
            i <= y@.len(),
            forall|j: int| 0 <= j < i ==> x@[j] == y@[j],
            !(text_before(a@, b@) && text_before(b@, a@)),
            !text_before(a@, a@),
        decreases x@.len() - i,
    {
        if x[i] < y[i] {
            assert(first_difference(x@, y@, i as int));
            return TextOrder::Before;
        }
        if y[i] < x[i] {
            assert(first_difference(y@, x@, i as int));
            return TextOrder::After;
        }
        i += 1;
    }
    if i < y.len() {
        assert(first_difference(x@, y@, i as int));
        TextOrder::Before
    } else if i < x.len() {
        assert(first_difference(y@, x@, i as int));
        TextOrder::After
    } else {
        assert(x@ =~= y@);
        proof {
            lemma_bytes_determine_text(a@, b@);
        }
        TextOrder::Same
    }
}

////////////////////////////////////////////////////////////////////////////////
// Padding

/// `n` blanks.
pub open spec fn blanks(n: nat) -> Seq<char> {
    Seq::new(n, |i: int| ' ')
}

/// How many blanks a text needs to reach `width` characters: none if it is as
/// long or longer.
pub open spec fn missing(s: Seq<char>, width: nat) -> nat {
    if s.len() < width {
        (width - s.len()) as nat
    } else {
        0
    }
}

/// `s` moved to the right end of a field of `width` characters.
pub open spec fn right_aligned(s: Seq<char>, width: nat) -> Seq<char> {
    blanks(missing(s, width)) + s
}

/// `s` at the left end of a field of `width` characters.
pub open spec fn left_aligned(s: Seq<char>, width: nat) -> Seq<char> {
    s + blanks(missing(s, width))
}

/// The length of a text in bytes.
pub open spec fn byte_len(s: Seq<char>) -> nat {
    encode_utf8(s).len()
}

/// The length in bytes of the longest of the texts; 0 if there is none.
pub open spec fn longest(texts: Seq<Seq<char>>) -> nat
    decreases texts.len(),
{
    if texts.len() == 0 {
        0
    } else if longest(texts.drop_last()) < byte_len(texts.last()) {
        byte_len(texts.last())
    } else {
        longest(texts.drop_last())
    }
}

/// None of the texts is longer than the longest.
pub proof fn lemma_longest(texts: Seq<Seq<char>>, i: int)
    requires
        0 <= i < texts.len(),
    ensures
        byte_len(texts[i]) <= longest(texts),
    decreases texts.len(),
{
    if i < texts.len() - 1 {
        lemma_longest(texts.drop_last(), i);
    }
}

/// The longest of two lists of texts is the longest of either.
pub proof fn lemma_longest_of_both(a: Seq<Seq<char>>, b: Seq<Seq<char>>)
    ensures
        longest(a + b) == if longest(a) < longest(b) {
            longest(b)
        } else {
            longest(a)
        },
    decreases b.len(),
{
    if b.len() == 0 {
        assert(a + b =~= a);
    } else {
        lemma_longest_of_both(a, b.drop_last());
        assert((a + b).drop_last() =~= a + b.drop_last());
    }
}

/// A text has at least as many bytes as characters.
pub proof fn lemma_chars_within_bytes(s: Seq<char>)
    ensures
        s.len() <= byte_len(s),
    decreases s.len(),
{
    if s.len() > 0 {
        lemma_chars_within_bytes(s.drop_first());
    }
}

/// The length of a string in bytes.
pub fn bytes_in(s: &str) -> (res: usize)
    ensures
        res == byte_len(s@),
{
    s.as_bytes().len()
}

/// Appends `n` blanks to a string.
pub fn push_blanks(out: &mut String, n: usize)
    ensures
        final(out)@ == old(out)@ + blanks(n as nat),
{
    let ghost before = out@;
    assert(before =~= before + blanks(0));
    let mut i: usize = 0;
    while i < n
        invariant
            i <= n,
            out@ == before + blanks(i as nat),
        decreases n - i,
    {
        out.append(" ");
        proof {
            reveal_strlit(" ");
            assert(out@ =~= before + blanks((i + 1) as nat));
        }
        i += 1;
    }
}

/// Appends `s` in a field of `width` characters, aligned to the right.
pub fn push_right_aligned(out: &mut String, s: &str, width: usize)
    ensures
        final(out)@ == old(out)@ + right_aligned(s@, width as nat),
{
    let ghost before = out@;
    let len: usize = s.unicode_len();
    if len < width {
        push_blanks(out, width - len);
    }
    out.append(s);
    assert(out@ =~= before + right_aligned(s@, width as nat));
}

////////////////////////////////////////////////////////////////////////////////
// Decimal numbers

/// The character of a decimal digit.
pub open spec fn digit(d: nat) -> char {
    (('0' as nat) + d) as char
}

/// A number written in decimal, without leading zeros.
pub open spec fn decimal(n: nat) -> Seq<char>
    decreases n,
{
    if n < 10 {
        seq![digit(n)]
    } else {
        decimal(n / 10).push(digit(n % 10))
    }
}

/// The one-character string of a digit.
fn digit_text(d: u64) -> (res: &'static str)
    requires
        d < 10,
    ensures
        res@ == seq![digit(d as nat)],
{
    proof {
        reveal_strlit("0");
        reveal_strlit("1");
        reveal_strlit("2");
        reveal_strlit("3");
        reveal_strlit("4");
        reveal_strlit("5");
        reveal_strlit("6");
        reveal_strlit("7");
        reveal_strlit("8");
        reveal_strlit("9");
    }
    let res = match d {
        0 => "0",
        1 => "1",
        2 => "2",
        3 => "3",
        4 => "4",
        5 => "5",
        6 => "6",
        7 => "7",
        8 => "8",
        _ => "9",
    };
    assert(res@ =~= seq![digit(d as nat)]);
    res
}

/// Writes a number in decimal.
pub fn decimal_text(n: u64) -> (res: String)
    ensures
        res@ == decimal(n as nat),
    decreases n,
{
    if n < 10 {
        digit_text(n).to_owned()
    } else {
        let mut s = decimal_text(n / 10);
        s.append(digit_text(n % 10));
        assert(s@ =~= decimal(n as nat));
        s
    }
}

////////////////////////////////////////////////////////////////////////////////
// Laws

/// Text that is handed over arrives as it is, borrowed or owned.
pub proof fn law_text_is_handed_over(owned: String, lent: &str, shared: &String)
    ensures
        owned.text() == owned@,
        lent.text() == lent@,
        shared.text() == shared@,
{
}

/// The first byte in which two strings differ decides which comes first, and the string with
/// the smaller one does; a string comes before all that go on where it ends.
pub proof fn law_first_different_byte_decides(a: Seq<char>, b: Seq<char>, k: int)
    requires
        0 <= k <= encode_utf8(a).len(),
        k < encode_utf8(b).len(),
        encode_utf8(a).take(k) == encode_utf8(b).take(k),
        k < encode_utf8(a).len() ==> encode_utf8(a)[k] < encode_utf8(b)[k],
    ensures
        text_before(a, b),
        !text_before(b, a),
        a != b,
{
    let (x, y) = (encode_utf8(a), encode_utf8(b));
    assert forall|j: int| 0 <= j < k implies x[j] == y[j] by {
        assert(x.take(k)[j] == y.take(k)[j]);
    }
    assert(first_difference(x, y, k));
    lemma_order_irreflexive(a);
    if text_before(b, a) {
        lemma_order_transitive(a, b, a);
    }
}

/// Text at the right end of a field: the text is the end of it, all before is blank, and the
/// field is no longer than the width asks for.
pub proof fn law_right_aligned(s: Seq<char>, width: nat)
    ensures
        s.is_suffix_of(right_aligned(s, width)),
        s.len() <= width ==> right_aligned(s, width).len() == width,
        s.len() >= width ==> right_aligned(s, width) == s,
        forall|i: int|
            0 <= i < right_aligned(s, width).len() - s.len() ==> #[trigger] right_aligned(
                s,
                width,
            )[i] == ' ',
{
    let field = right_aligned(s, width);
    assert(field.subrange(field.len() - s.len(), field.len() as int) =~= s);
    if s.len() >= width {
        assert(field =~= s);
    }
}

/// Text at the left end of a field: the text is the beginning of it, all behind is blank, and
/// the field is no longer than the width asks for.
pub proof fn law_left_aligned(s: Seq<char>, width: nat)
    ensures
        s.is_prefix_of(left_aligned(s, width)),
        s.len() <= width ==> left_aligned(s, width).len() == width,
        s.len() >= width ==> left_aligned(s, width) == s,
        forall|i: int|
            s.len() <= i < left_aligned(s, width).len() ==> #[trigger] left_aligned(s, width)[i]
                == ' ',
{
    let field = left_aligned(s, width);
    assert(field.subrange(0, s.len() as int) =~= s);
    if s.len() >= width {
        assert(field =~= s);
    }
}

/// Appending blanks appends blanks only, and as many as asked for.
pub proof fn law_blanks(n: nat)
    ensures
        blanks(n).len() == n,
        forall|i: int| 0 <= i < n ==> #[trigger] blanks(n)[i] == ' ',
{
}

/// The length of a text is that of its characters, which take from one to four bytes each.
pub proof fn law_bytes_of_a_text(c: char, rest: Seq<char>)
    ensures
        byte_len(Seq::<char>::empty()) == 0,
        byte_len(seq![c] + rest) == byte_len(rest) + if (c as int) < 0x80 {
            1int
        } else if (c as int) < 0x800 {
            2
        } else if (c as int) < 0x10000 {
            3
        } else {
            4
        },
{
    let s = seq![c] + rest;
    assert(s.drop_first() =~= rest);
    assert(s[0] == c);
}

/// The length of the longest text: none of the texts is longer, and one is as long, if there
/// is any.
pub proof fn law_longest(texts: Seq<Seq<char>>)
    ensures
        forall|i: int| 0 <= i < texts.len() ==> byte_len(#[trigger] texts[i]) <= longest(texts),
        texts.len() == 0 ==> longest(texts) == 0,
        texts.len() > 0 ==> exists|i: int|
            0 <= i < texts.len() && byte_len(#[trigger] texts[i]) == longest(texts),
    decreases texts.len(),
{
    assert forall|i: int| 0 <= i < texts.len() implies byte_len(#[trigger] texts[i]) <= longest(
        texts,
    ) by {
        lemma_longest(texts, i);
    }
    if texts.len() > 0 {
        let head = texts.drop_last();
        law_longest(head);
        if longest(head) < byte_len(texts.last()) || head.len() == 0 {
            assert(byte_len(texts[texts.len() - 1]) == longest(texts));
        } else {
            let i = choose|i: int| 0 <= i < head.len() && byte_len(#[trigger] head[i]) == longest(
                head,
            );
            assert(texts[i] == head[i]);
        }
    }
}

/// What a row of decimal digits stands for.
pub open spec fn digits_value(digits: Seq<char>) -> int
    decreases digits.len(),
{
    if digits.len() == 0 {
        0
    } else {
        10 * digits_value(digits.drop_last()) + (digits.last() as int - '0' as int)
    }
}

/// A number in decimal reads as that number, in digits only, and has no leading zero unless it
/// is zero.
pub proof fn law_decimal_reads_back(n: nat)
    ensures
        digits_value(decimal(n)) == n,
        decimal(n).len() > 0,
        forall|i: int| 0 <= i < decimal(n).len() ==> '0' <= #[trigger] decimal(n)[i] <= '9',
        decimal(n)[0] == '0' ==> n == 0,
        n == 0 ==> decimal(n).len() == 1,
    decreases n,
{
    if n < 10 {
        assert(decimal(n).drop_last() =~= Seq::<char>::empty());
        assert(digits_value(Seq::<char>::empty()) == 0);
        assert(decimal(n).last() as int == '0' as int + n);
    } else {
        law_decimal_reads_back(n / 10);
        assert(decimal(n).last() as int == '0' as int + n % 10);
        assert(decimal(n).drop_last() =~= decimal(n / 10));
        assert(decimal(n)[0] == decimal(n / 10)[0]);
    }
}

} // verus!
