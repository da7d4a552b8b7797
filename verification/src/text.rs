//! Text as the rest of the library reasons about it: byte order, decimal
//! spellings, joining, blankness and truncation, each stated over the sequence
//! of characters a string holds.
use vstd::prelude::*;
use vstd::utf8::*;

verus! {

/// `String::push` appends one character to the end of the string.
pub assume_specification[ String::push ](s: &mut String, c: char)
    ensures
        final(s)@ == old(s)@.push(c),
;

// --- lexicographic order --------------------------------------------------

/// Whether `a` comes before `b`, looking from position `i` on.
pub open spec fn lex_less_from(a: Seq<int>, b: Seq<int>, i: int) -> bool
    decreases a.len() - i,
{
    if i >= b.len() {
        false
    } else if i >= a.len() {
        true
    } else if a[i] != b[i] {
        a[i] < b[i]
    } else {
        lex_less_from(a, b, i + 1)
    }
}

/// Lexicographic order: the first difference decides, and a proper prefix
/// comes first.
pub open spec fn lex_less(a: Seq<int>, b: Seq<int>) -> bool {
    lex_less_from(a, b, 0)
}

proof fn lemma_lex_irreflexive_from(a: Seq<int>, i: int)
    requires
        0 <= i,
    ensures
        !lex_less_from(a, a, i),
    decreases a.len() - i,
{
    if i < a.len() {
        lemma_lex_irreflexive_from(a, i + 1);
    }
}

proof fn lemma_lex_transitive_from(a: Seq<int>, b: Seq<int>, c: Seq<int>, i: int)
    requires
        0 <= i,
        lex_less_from(a, b, i),
        lex_less_from(b, c, i),
    ensures
        lex_less_from(a, c, i),
    decreases a.len() - i,
{
    if i < a.len() && i < b.len() && i < c.len() && a[i] == b[i] && b[i] == c[i] {
        lemma_lex_transitive_from(a, b, c, i + 1);
    }
}

proof fn lemma_lex_total_from(a: Seq<int>, b: Seq<int>, i: int)
    requires
        0 <= i <= a.len(),
        i <= b.len(),
        forall|j: int| 0 <= j < i ==> a[j] == b[j],
    ensures
        a == b || lex_less_from(a, b, i) || lex_less_from(b, a, i),
    decreases a.len() - i,
{
    if i < a.len() && i < b.len() && a[i] == b[i] {
        lemma_lex_total_from(a, b, i + 1);
    } else if i == a.len() && i == b.len() {
        assert(a =~= b);
    }
}

/// Lexicographic order is strict and total.
pub proof fn lemma_lex_order(a: Seq<int>, b: Seq<int>, c: Seq<int>)
    ensures
        !lex_less(a, a),
        lex_less(a, b) && lex_less(b, c) ==> lex_less(a, c),
        a == b || lex_less(a, b) || lex_less(b, a),
{
    lemma_lex_irreflexive_from(a, 0);
    if lex_less(a, b) && lex_less(b, c) {
        lemma_lex_transitive_from(a, b, c, 0);
    }
    lemma_lex_total_from(a, b, 0);
}

proof fn lemma_lex_shift(x: int, y: int, a: Seq<int>, b: Seq<int>, i: int)
    requires
        0 <= i,
    ensures
        lex_less_from(seq![x] + a, seq![y] + b, i + 1) == lex_less_from(a, b, i),
    decreases a.len() - i,
{
    if i < a.len() && i < b.len() {
        assert((seq![x] + a)[i + 1] == a[i]);
        assert((seq![y] + b)[i + 1] == b[i]);
        lemma_lex_shift(x, y, a, b, i + 1);
    }
}

/// The first items decide, and where they agree, the rest does.
pub proof fn lemma_lex_first(x: int, y: int, a: Seq<int>, b: Seq<int>)
    ensures
        lex_less(seq![x] + a, seq![y] + b) == (x < y || (x == y && lex_less(a, b))),
{
    lemma_lex_shift(x, y, a, b, 0);
    assert((seq![x] + a)[0] == x);
    assert((seq![y] + b)[0] == y);
}

// --- the order of strings -------------------------------------------------

/// The bytes a string is compared by: its UTF-8 encoding.
pub open spec fn byte_key(s: Seq<char>) -> Seq<int> {
    encode_utf8(s).map_values(|b: u8| b as int)
}

/// The order of strings: by their bytes.
pub open spec fn text_less(a: Seq<char>, b: Seq<char>) -> bool {
    lex_less(byte_key(a), byte_key(b))
}

proof fn lemma_byte_key_injective(a: Seq<char>, b: Seq<char>)
    requires
        byte_key(a) == byte_key(b),
    ensures
        a == b,
{
    let x = encode_utf8(a);
    let y = encode_utf8(b);
    assert(x.len() == byte_key(a).len() && y.len() == byte_key(b).len());
    assert forall|i: int| 0 <= i < x.len() implies x[i] == y[i] by {
        assert(byte_key(a)[i] == x[i] as int);
        assert(byte_key(b)[i] == y[i] as int);
    }
    assert(x =~= y);
    encode_utf8_decode_utf8(a);
    encode_utf8_decode_utf8(b);
}

/// No string comes before itself.
pub proof fn lemma_text_less_irreflexive(a: Seq<char>)
    ensures
        !text_less(a, a),
{
    lemma_lex_irreflexive_from(byte_key(a), 0);
}

/// The order of strings is transitive.
pub proof fn lemma_text_less_transitive(a: Seq<char>, b: Seq<char>, c: Seq<char>)
    requires
        text_less(a, b),
        text_less(b, c),
    ensures
        text_less(a, c),
{
    lemma_lex_transitive_from(byte_key(a), byte_key(b), byte_key(c), 0);
}

/// Two different strings are ordered one way or the other.
pub proof fn lemma_text_less_total(a: Seq<char>, b: Seq<char>)
    ensures
        a == b || text_less(a, b) || text_less(b, a),
{
    lemma_lex_total_from(byte_key(a), byte_key(b), 0);
    if byte_key(a) == byte_key(b) {
        lemma_byte_key_injective(a, b);
    }
}

/// Whether `a` comes before `b`.
pub fn text_before(a: &str, b: &str) -> (r: bool)
    ensures
        r == text_less(a@, b@),
{
    let x = a.as_bytes();
    let y = b.as_bytes();
    let mut i: usize = 0;
    let ghost p = byte_key(a@);
    let ghost q = byte_key(b@);
    while i < x.len() && i < y.len() && x[i] == y[i]
        invariant
            i <= x.len(),
            i <= y.len(),
            x@.len() == p.len(),
            y@.len() == q.len(),
            forall|j: int| 0 <= j < p.len() ==> p[j] == x@[j] as int,
            forall|j: int| 0 <= j < q.len() ==> q[j] == y@[j] as int,
            lex_less_from(p, q, 0) == lex_less_from(p, q, i as int),
        decreases x.len() - i,
    {
        i = i + 1;
    }
    if i >= y.len() {
        false
    } else if i >= x.len() {
        true
    } else {
        x[i] < y[i]
    }
}

/// Whether two strings hold the same characters.
pub fn same_text(a: &str, b: &str) -> (r: bool)
    ensures
        r == (a@ == b@),
{
    let x = a.as_bytes();
    let y = b.as_bytes();
    if x.len() != y.len() {
        return false;
    }
    let mut i: usize = 0;
    while i < x.len()
        invariant
            i <= x.len(),
            x.len() == y.len(),
            x@ == encode_utf8(a@),
            y@ == encode_utf8(b@),
            forall|j: int| 0 <= j < i ==> x@[j] == y@[j],
        decreases x.len() - i,
    {
        if x[i] != y[i] {
            return false;
        }
        i = i + 1;
    }
    proof {
        assert(x@ =~= y@);
        lemma_byte_key_injective(a@, b@);
    }
    true
}

// --- lists of strings -----------------------------------------------------

/// What a list of strings holds.
pub open spec fn texts(s: Seq<String>) -> Seq<Seq<char>> {
    Seq::new(s.len(), |i: int| s[i]@)
}

/// The parts one after another, with `sep` between neighbours.
pub open spec fn joined(parts: Seq<Seq<char>>, sep: Seq<char>) -> Seq<char>
    decreases parts.len(),
{
    if parts.len() == 0 {
        Seq::empty()
    } else if parts.len() == 1 {
        parts[0]
    } else {
        joined(parts.drop_last(), sep) + sep + parts.last()
    }
}

/// Join strings with a separator.
pub fn join(parts: &[String], sep: &str) -> (r: String)
    ensures
        r@ == joined(texts(parts@), sep@),
{
    let mut out = String::new();
    let mut i: usize = 0;
    while i < parts.len()
        invariant
            i <= parts.len(),
            out@ == joined(texts(parts@).take(i as int), sep@),
        decreases parts.len() - i,
    {
        proof {
            let all = texts(parts@);
            assert(all.take(i + 1).drop_last() =~= all.take(i as int));
            assert(all.take(i + 1).last() == parts@[i as int]@);
            if i == 0 {
                assert(all.take(0).len() == 0);
                assert(Seq::<char>::empty() + parts@[0]@ =~= parts@[0]@);
            }
        }
        if i > 0 {
            out.append(sep);
        }
        out.append(parts[i].as_str());
        i = i + 1;
    }
    proof {
        assert(texts(parts@).take(i as int) =~= texts(parts@));
    }
    out
}

/// Whether `list` holds a string with these characters.
pub fn holds_text(list: &[String], wanted: &str) -> (r: bool)
    ensures
        r == texts(list@).contains(wanted@),
{
    let mut i: usize = 0;
    while i < list.len()
        invariant
            i <= list.len(),
            forall|j: int| 0 <= j < i ==> list@[j]@ != wanted@,
        decreases list.len() - i,
    {
        if same_text(list[i].as_str(), wanted) {
            proof {
                assert(texts(list@)[i as int] == wanted@);
            }
            return true;
        }
        i = i + 1;
    }
    false
}

/// A list of strings copied, string by string.
pub fn copy_texts(list: &[String]) -> (r: Vec<String>)
    ensures
        r@ == list@,
{
    let mut out: Vec<String> = Vec::new();
    let mut i: usize = 0;
    while i < list.len()
        invariant
            i <= list.len(),
            out@ == list@.take(i as int),
        decreases list.len() - i,
    {
        out.push(list[i].clone());
        proof {
            assert(list@.take(i + 1) =~= list@.take(i as int).push(list@[i as int]));
        }
        i = i + 1;
    }
    proof {
        assert(list@.take(i as int) =~= list@);
    }
    out
}

/// Whether `s` ends with `t`.
pub open spec fn ends_in(s: Seq<char>, t: Seq<char>) -> bool {
    s.len() >= t.len() && s.skip(s.len() - t.len()) == t
}

/// Whether `s` ends with `t`.
pub fn text_ends_with(s: &str, t: &str) -> (r: bool)
    ensures
        r == ends_in(s@, t@),
{
    let x = chars_of(s);
    let y = chars_of(t);
    if x.len() < y.len() {
        return false;
    }
    let from: usize = x.len() - y.len();
    let mut i: usize = 0;
    while i < y.len()
        invariant
            i <= y.len(),
            from + y.len() == x.len(),
            x@ == s@,
            y@ == t@,
            forall|j: int| 0 <= j < i ==> s@[from + j] == #[trigger] t@[j],
        decreases y.len() - i,
    {
        if x[from + i] != y[i] {
            proof {
                assert(s@.skip(from as int)[i as int] != t@[i as int]);
            }
            return false;
        }
        i = i + 1;
    }
    proof {
        assert(s@.skip(from as int) =~= t@);
    }
    true
}

// --- decimal spellings ----------------------------------------------------

/// The decimal digit `d`.
pub open spec fn digit(d: int) -> char {
    ('0' as int + d) as char
}

/// The decimal spelling of a number, without leading zeros.
pub open spec fn decimal(n: nat) -> Seq<char>
    decreases n,
{
    if n < 10 {
        seq![digit(n as int)]
    } else {
        decimal(n / 10).push(digit((n % 10) as int))
    }
}

/// The decimal spelling of a whole number, with a minus sign below zero.
pub open spec fn integer_text(n: int) -> Seq<char> {
    if n < 0 {
        seq!['-'] + decimal((-n) as nat)
    } else {
        decimal(n as nat)
    }
}

fn push_digit(out: &mut String, d: u8)
    requires
        d < 10,
    ensures
        final(out)@ == old(out)@.push(digit(d as int)),
{
    out.push((48u8 + d) as char);
}

/// Append the decimal spelling of `n`.
pub fn push_decimal(out: &mut String, n: u64)
    ensures
        final(out)@ == old(out)@ + decimal(n as nat),
    decreases n,
{
    if n >= 10 {
        push_decimal(out, n / 10);
    }
    push_digit(out, (n % 10) as u8);
    proof {
        if n < 10 {
            assert(old(out)@.push(digit(n as int)) =~= old(out)@ + decimal(n as nat));
        } else {
            assert((old(out)@ + decimal((n / 10) as nat)).push(digit((n % 10) as int))
                =~= old(out)@ + decimal(n as nat));
        }
    }
}

/// Append the decimal spelling of a number that may be too large for `u64`.
pub fn push_wide_decimal(out: &mut String, n: u128)
    ensures
        final(out)@ == old(out)@ + decimal(n as nat),
    decreases n,
{
    if n >= 10 {
        push_wide_decimal(out, n / 10);
    }
    push_digit(out, (n % 10) as u8);
    proof {
        if n < 10 {
            assert(old(out)@.push(digit(n as int)) =~= old(out)@ + decimal(n as nat));
        } else {
            assert((old(out)@ + decimal((n / 10) as nat)).push(digit((n % 10) as int))
                =~= old(out)@ + decimal(n as nat));
        }
    }
}

/// The decimal spelling of `n`.
pub fn decimal_text(n: u64) -> (r: String)
    ensures
        r@ == decimal(n as nat),
{
    let mut out = String::new();
    push_decimal(&mut out, n);
    proof {
        assert(Seq::<char>::empty() + decimal(n as nat) =~= decimal(n as nat));
    }
    out
}

// --- blank text -----------------------------------------------------------

/// The characters Unicode calls white space.
pub open spec fn is_space(c: char) -> bool {
    let n = c as int;
    ||| 9 <= n <= 13
    ||| n == 0x20
    ||| n == 0x85
    ||| n == 0xa0
    ||| n == 0x1680
    ||| 0x2000 <= n <= 0x200a
    ||| n == 0x2028
    ||| n == 0x2029
    ||| n == 0x202f
    ||| n == 0x205f
    ||| n == 0x3000
}

/// Whether a string holds nothing but white space.
pub open spec fn is_blank(s: Seq<char>) -> bool {
    forall|i: int| 0 <= i < s.len() ==> is_space(#[trigger] s[i])
}

/// The characters of a string, one by one.
pub fn chars_of(s: &str) -> (v: Vec<char>)
    ensures
        v@ == s@,
{
    let mut out: Vec<char> = Vec::new();
    for c in it: s.chars()
        invariant
            out@ == it.seq().take(it.index() as int),
            it.seq() == s@,
    {
        proof {
            assert(it.seq().take(it.index() + 1) =~= it.seq().take(it.index() as int).push(c));
        }
        out.push(c);
    }
    proof {
        assert(out@ =~= s@);
    }
    out
}

/// Whether a character is white space.
fn space(c: char) -> (r: bool)
    ensures
        r == is_space(c),
{
    let n: u32 = c as u32;
    (9 <= n && n <= 13) || n == 0x20 || n == 0x85 || n == 0xa0 || n == 0x1680 || (0x2000 <= n && n
        <= 0x200a) || n == 0x2028 || n == 0x2029 || n == 0x202f || n == 0x205f || n == 0x3000
}

/// Whether a string holds nothing but white space.
pub fn blank(s: &str) -> (r: bool)
    ensures
        r == is_blank(s@),
{
    let v = chars_of(s);
    let mut i: usize = 0;
    while i < v.len()
        invariant
            i <= v.len(),
            v@ == s@,
            forall|j: int| 0 <= j < i ==> is_space(#[trigger] s@[j]),
        decreases v.len() - i,
    {
        if !space(v[i]) {
            proof {
                assert(!is_space(s@[i as int]));
            }
            return false;
        }
        i = i + 1;
    }
    true
}

// --- length in bytes ------------------------------------------------------

/// How many bytes a string takes.
pub open spec fn byte_len(s: Seq<char>) -> nat {
    encode_utf8(s).len()
}

/// How many bytes one character takes.
pub open spec fn char_width(c: char) -> nat {
    encode_scalar(c as u32).len()
}

/// The bytes of two strings in a row are the bytes of each in a row.
pub proof fn lemma_encode_concat(a: Seq<char>, b: Seq<char>)
    ensures
        encode_utf8(a + b) == encode_utf8(a) + encode_utf8(b),
    decreases a.len(),
{
    if a.len() == 0 {
        assert(a + b =~= b);
        assert(encode_utf8(a) + encode_utf8(b) =~= encode_utf8(b));
    } else {
        assert((a + b).drop_first() =~= a.drop_first() + b);
        lemma_encode_concat(a.drop_first(), b);
        assert(encode_utf8(a + b) =~= encode_utf8(a) + encode_utf8(b));
    }
}

/// Length in bytes adds up over concatenation.
pub proof fn lemma_byte_len_concat(a: Seq<char>, b: Seq<char>)
    ensures
        byte_len(a + b) == byte_len(a) + byte_len(b),
{
    lemma_encode_concat(a, b);
}

/// A string takes at least one byte for each character.
pub proof fn lemma_byte_len_at_least(s: Seq<char>)
    ensures
        byte_len(s) >= s.len(),
    decreases s.len(),
{
    if s.len() > 0 {
        lemma_byte_len_at_least(s.drop_first());
    }
}

/// How many leading characters fit into `room` bytes.
pub open spec fn fitting(s: Seq<char>, room: int) -> int
    decreases s.len(),
{
    if s.len() == 0 || char_width(s[0]) > room {
        0
    } else {
        1 + fitting(s.drop_first(), room - char_width(s[0]))
    }
}

/// The longest prefix that takes at most `max` bytes.
pub open spec fn clipped(s: Seq<char>, max: int) -> Seq<char> {
    s.take(fitting(s, max))
}

/// The clipped prefix fits, and one character more would not.
pub proof fn lemma_clipped(s: Seq<char>, max: int)
    requires
        max >= 0,
    ensures
        0 <= fitting(s, max) <= s.len(),
        byte_len(clipped(s, max)) <= max,
        fitting(s, max) < s.len() ==> byte_len(s.take(fitting(s, max) + 1)) > max,
    decreases s.len(),
{
    if s.len() == 0 {
        assert(s.take(0) =~= Seq::<char>::empty());
    } else if char_width(s[0]) > max {
        assert(s.take(0) =~= Seq::<char>::empty());
        assert(s.take(1).drop_first() =~= Seq::<char>::empty());
        assert(byte_len(s.take(1)) == char_width(s[0]) + byte_len(s.take(1).drop_first()));
    } else {
        let rest = s.drop_first();
        let room = max - char_width(s[0]);
        let k = fitting(rest, room);
        lemma_clipped(rest, room);
        assert(s.take(k + 1).drop_first() =~= rest.take(k));
        assert(s.take(k + 1)[0] == s[0]);
        if k < rest.len() {
            assert(s.take(k + 2).drop_first() =~= rest.take(k + 1));
            assert(s.take(k + 2)[0] == s[0]);
        }
    }
}

/// How many bytes a character takes.
fn width_of(c: char) -> (n: usize)
    ensures
        n == char_width(c),
        1 <= n <= 4,
{
    let u: u32 = c as u32;
    if u <= 0x7f {
        1
    } else if u <= 0x7ff {
        2
    } else if u <= 0xffff {
        3
    } else {
        4
    }
}

/// Truncate to at most `max` bytes without splitting a character.
pub fn truncate_bytes(s: &str, max: usize) -> (r: String)
    ensures
        r@ == clipped(s@, max as int),
        byte_len(r@) <= max,
        r@.is_prefix_of(s@),
        r@.len() < s@.len() ==> byte_len(s@.take(r@.len() as int + 1)) > max,
{
    let chars = chars_of(s);
    let mut out = String::new();
    let mut room: usize = max;
    let mut i: usize = 0;
    proof {
        lemma_clipped(s@, max as int);
        assert(s@.skip(0) =~= s@);
    }
    while i < chars.len() && width_of(chars[i]) <= room
        invariant
            i <= chars.len(),
            chars@ == s@,
            out@ == s@.take(i as int),
            room <= max,
            fitting(s@, max as int) == i + fitting(s@.skip(i as int), room as int),
        decreases chars.len() - i,
    {
        let c = chars[i];
        proof {
            assert(s@.skip(i as int)[0] == c);
            assert(s@.skip(i as int).drop_first() =~= s@.skip(i + 1));
            assert(s@.take(i + 1) =~= s@.take(i as int).push(c));
        }
        room = room - width_of(c);
        out.push(c);
        i = i + 1;
    }
    proof {
        if i < chars.len() {
            assert(s@.skip(i as int)[0] == chars@[i as int]);
        }
        assert(fitting(s@.skip(i as int), room as int) == 0);
    }
    out
}

// --- reading numbers back -------------------------------------------------

/// The number that decimal digits spell.
pub open spec fn number_spelled(s: Seq<char>) -> int
    decreases s.len(),
{
    if s.len() == 0 {
        0
    } else {
        number_spelled(s.drop_last()) * 10 + (s.last() as int - '0' as int)
    }
}

/// The decimal spelling of a number is made of digits, reads back as the number, and
/// has no zero in front of another digit.
pub proof fn lemma_decimal_reads_back(n: nat)
    ensures
        number_spelled(decimal(n)) == n,
        decimal(n).len() > 0,
        decimal(n).len() > 1 ==> decimal(n)[0] != '0',
        n > 0 ==> decimal(n)[0] != '0',
        forall|i: int| 0 <= i < decimal(n).len() ==> '0' <= #[trigger] decimal(n)[i] <= '9',
    decreases n,
{
    if n < 10 {
        let d = digit(n as int);
        assert(seq![d].drop_last() =~= Seq::<char>::empty());
        assert(number_spelled(Seq::<char>::empty()) == 0);
        assert(d as int == '0' as int + n);
    } else {
        lemma_decimal_reads_back(n / 10);
        let last = digit((n % 10) as int);
        assert(decimal(n).drop_last() =~= decimal(n / 10));
        assert(decimal(n).last() == last);
        assert(last as int == '0' as int + n % 10);
        assert(decimal(n)[0] == decimal(n / 10)[0]);
    }
}

/// White space is what Unicode calls so: the blank, the five controls from the tab to
/// the carriage return, the next line, and the spaces and separators beyond Latin. No
/// letter, digit or printed sign of ASCII is.
pub proof fn lemma_what_white_space_is(c: char)
    ensures
        c == ' ' || c == '\t' || c == '\n' || c == '\r' ==> is_space(c),
        c as int == 11 || c as int == 12 || c as int == 0x85 || c as int == 0xa0 ==> is_space(c),
        c as int == 0x1680 || 0x2000 <= c as int <= 0x200a || c as int == 0x2028 || c as int
            == 0x2029 || c as int == 0x202f || c as int == 0x205f || c as int == 0x3000
            ==> is_space(c),
        '!' <= c <= '~' ==> !is_space(c),
        (c as int) < 9 ==> !is_space(c),
        0xa1 <= (c as int) && (c as int) < 0x1680 ==> !is_space(c),
        c as int > 0x3000 ==> !is_space(c),
        c as int == 0x200b || c as int == 0x2060 || c as int == 0x180e ==> !is_space(c),
{
}

} // verus!
