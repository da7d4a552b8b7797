//! Canonical JSON: one spelling for every value, and the digest taken over it.
//!
//! Members are written in the UTF-16 order of their keys, numbers without a
//! leading zero or a trailing one, strings with the shortest escape each
//! character has. Two values that say the same thing are the same bytes,
//! whatever order their members were added in.
use sha2::{Digest, Sha256};
use vstd::prelude::*;

use crate::decimal;
use crate::sorting;
use crate::strmap::StrMap;
use crate::text;

verus! {

/// A JSON value.
#[derive(Debug)]
pub enum Json {
    /// `null`.
    Null,
    /// `true` or `false`.
    Bool(bool),
    /// A whole number from zero up.
    Unsigned(u64),
    /// A whole number.
    Signed(i64),
    /// A number given in millionths.
    Millionths(i64),
    /// A number of millionths given by its digits and the zeros after them.
    Scaled {
        /// The digits.
        digits: i64,
        /// How many zeros follow them.
        zeros: u16,
    },
    /// A string.
    Text(String),
    /// An array.
    List(Vec<Json>),
    /// An object.
    Members(Vec<(String, Json)>),
}

/// What a [`Json`] value says.
pub enum JsonModel {
    Null,
    Bool(bool),
    Whole(int),
    Millionths(int),
    Text(Seq<char>),
    List(Seq<JsonModel>),
    Members(Seq<(Seq<char>, JsonModel)>),
}

/// What a JSON value says.
pub open spec fn model(j: Json) -> JsonModel
    decreases j,
{
    match j {
        Json::Null => JsonModel::Null,
        Json::Bool(b) => JsonModel::Bool(b),
        Json::Unsigned(n) => JsonModel::Whole(n as int),
        Json::Signed(n) => JsonModel::Whole(n as int),
        Json::Millionths(n) => JsonModel::Millionths(n as int),
        Json::Scaled { digits, zeros } => JsonModel::Millionths(
            decimal::scaled(digits as int, zeros as nat),
        ),
        Json::Text(s) => JsonModel::Text(s@),
        Json::List(v) => JsonModel::List(
            Seq::new(
                v@.len(),
                |i: int|
                    if 0 <= i < v@.len() {
                        model(v@[i])
                    } else {
                        JsonModel::Null
                    },
            ),
        ),
        Json::Members(v) => JsonModel::Members(
            Seq::new(
                v@.len(),
                |i: int|
                    if 0 <= i < v@.len() {
                        (v@[i].0@, model(v@[i].1))
                    } else {
                        (Seq::empty(), JsonModel::Null)
                    },
            ),
        ),
    }
}

/// What a list of JSON values says.
pub open spec fn models(v: Seq<Json>) -> Seq<JsonModel> {
    Seq::new(v.len(), |i: int| model(v[i]))
}

/// What a list of members says.
pub open spec fn member_models(v: Seq<(String, Json)>) -> Seq<(Seq<char>, JsonModel)> {
    Seq::new(v.len(), |i: int| (v[i].0@, model(v[i].1)))
}

impl View for Json {
    type V = JsonModel;

    open spec fn view(&self) -> JsonModel {
        model(*self)
    }
}

/// An array says what its items say.
pub proof fn lemma_list_model(v: Vec<Json>)
    ensures
        model(Json::List(v)) == JsonModel::List(models(v@)),
{
    assert(model(Json::List(v))->List_0 =~= models(v@));
}

/// An object says what its members say.
pub proof fn lemma_members_model(v: Vec<(String, Json)>)
    ensures
        model(Json::Members(v)) == JsonModel::Members(member_models(v@)),
{
    assert(model(Json::Members(v))->Members_0 =~= member_models(v@));
}

/// An object member.
pub fn member(key: &str, value: Json) -> (r: (String, Json))
    ensures
        r.0@ == key@,
        r.1 == value,
{
    (key.to_owned(), value)
}

/// An object.
pub fn object(members: Vec<(String, Json)>) -> (j: Json)
    ensures
        j@ == JsonModel::Members(member_models(members@)),
{
    proof {
        lemma_members_model(members);
    }
    Json::Members(members)
}

/// An array.
pub fn array(items: Vec<Json>) -> (j: Json)
    ensures
        j@ == JsonModel::List(models(items@)),
{
    proof {
        lemma_list_model(items);
    }
    Json::List(items)
}

/// A string.
pub fn string(s: &str) -> (j: Json)
    ensures
        j@ == JsonModel::Text(s@),
{
    Json::Text(s.to_owned())
}

/// What an optional string says: itself, or nothing.
pub open spec fn optional_text(s: Option<String>) -> JsonModel {
    match s {
        Some(t) => JsonModel::Text(t@),
        None => JsonModel::Null,
    }
}

/// An optional string.
pub fn optional_string(s: &Option<String>) -> (j: Json)
    ensures
        j@ == optional_text(*s),
{
    match s {
        Some(t) => string(t.as_str()),
        None => Json::Null,
    }
}

/// What a list of strings says.
pub open spec fn text_list(s: Seq<String>) -> JsonModel {
    JsonModel::List(Seq::new(s.len(), |i: int| JsonModel::Text(s[i]@)))
}

/// A list of strings.
pub fn string_list(s: &[String]) -> (j: Json)
    ensures
        j@ == text_list(s@),
{
    let mut items: Vec<Json> = Vec::new();
    let mut i: usize = 0;
    while i < s.len()
        invariant
            i <= s.len(),
            items@.len() == i,
            forall|k: int| 0 <= k < i ==> (#[trigger] items@[k])@ == JsonModel::Text(s@[k]@),
        decreases s.len() - i,
    {
        items.push(string(s[i].as_str()));
        i = i + 1;
    }
    proof {
        assert(models(items@) =~= Seq::new(s@.len(), |i: int| JsonModel::Text(s@[i]@)));
    }
    array(items)
}

/// What a map from strings to strings says.
pub open spec fn text_map(rows: Seq<(Seq<char>, Seq<char>)>) -> JsonModel {
    JsonModel::Members(Seq::new(rows.len(), |i: int| (rows[i].0, JsonModel::Text(rows[i].1))))
}

/// A map from strings to strings.
pub fn string_map(m: &StrMap<String>) -> (j: Json)
    ensures
        j@ == text_map(m@),
{
    let n = m.len();
    let mut members: Vec<(String, Json)> = Vec::new();
    let mut i: usize = 0;
    while i < n
        invariant
            i <= n,
            n == m@.len(),
            members@.len() == i,
            forall|k: int|
                0 <= k < i ==> (#[trigger] members@[k]).0@ == m@[k].0 && members@[k].1@
                    == JsonModel::Text(m@[k].1),
        decreases n - i,
    {
        members.push(member(m.key_at(i).as_str(), string(m.value_at(i).as_str())));
        i = i + 1;
    }
    proof {
        assert(member_models(members@) =~= Seq::new(
            m@.len(),
            |i: int| (m@[i].0, JsonModel::Text(m@[i].1)),
        ));
    }
    object(members)
}

/// A value that has no canonical text.
#[derive(Debug, Clone, Copy, PartialEq, Eq, Structural)]
pub enum CanonicalError {
    /// A ratio that is not a number, or too large to count in millionths.
    UncarriableRatio,
}

impl CanonicalError {
    /// The error as a reader sees it.
    pub open spec fn message(self) -> Seq<char> {
        "ratio has no canonical JSON representation"@
    }

    /// The error as a reader sees it.
    pub fn describe(self) -> (r: String)
        ensures
            r@ == self.message(),
    {
        "ratio has no canonical JSON representation".to_owned()
    }
}

// --- the order of keys ----------------------------------------------------

/// The UTF-16 code units of one character.
pub open spec fn utf16_char(c: char) -> Seq<int> {
    let n = c as int;
    if n < 0x10000 {
        seq![n]
    } else {
        seq![0xd800 + (n - 0x10000) / 0x400, 0xdc00 + (n - 0x10000) % 0x400]
    }
}

/// The UTF-16 code units of a string.
pub open spec fn utf16(s: Seq<char>) -> Seq<int>
    decreases s.len(),
{
    if s.len() == 0 {
        Seq::empty()
    } else {
        utf16(s.drop_last()) + utf16_char(s.last())
    }
}

/// The order of object keys: by their UTF-16 code units.
pub open spec fn key_less(a: Seq<char>, b: Seq<char>) -> bool {
    text::lex_less(utf16(a), utf16(b))
}

fn utf16_units(s: &str) -> (r: Vec<u32>)
    ensures
        r@.map_values(|u: u32| u as int) == utf16(s@),
{
    let chars = text::chars_of(s);
    let mut out: Vec<u32> = Vec::new();
    let ghost f = |u: u32| u as int;
    let mut i: usize = 0;
    proof {
        assert(s@.take(0) =~= Seq::<char>::empty());
        assert(out@.map_values(f) =~= utf16(s@.take(0)));
    }
    while i < chars.len()
        invariant
            i <= chars.len(),
            chars@ == s@,
            f == (|u: u32| u as int),
            out@.map_values(f) == utf16(s@.take(i as int)),
        decreases chars.len() - i,
    {
        let ghost before = out@;
        push_units(&mut out, chars[i]);
        proof {
            let c = s@[i as int];
            assert(s@.take(i + 1).drop_last() =~= s@.take(i as int));
            assert(s@.take(i + 1).last() == c);
            assert(out@.map_values(f) =~= before.map_values(f) + utf16_char(c));
        }
        i = i + 1;
    }
    proof {
        assert(s@.take(i as int) =~= s@);
    }
    out
}

fn push_units(out: &mut Vec<u32>, c: char)
    ensures
        final(out)@.map_values(|u: u32| u as int) =~= old(out)@.map_values(|u: u32| u as int)
            + utf16_char(c),
{
    let n: u32 = c as u32;
    if n < 0x10000 {
        out.push(n);
    } else {
        out.push(0xd800 + (n - 0x10000) / 0x400);
        out.push(0xdc00 + (n - 0x10000) % 0x400);
    }
}

/// Whether key `a` comes before key `b`.
fn key_before(a: &str, b: &str) -> (r: bool)
    ensures
        r == key_less(a@, b@),
{
    let x = utf16_units(a);
    let y = utf16_units(b);
    let ghost p = utf16(a@);
    let ghost q = utf16(b@);
    proof {
        assert forall|j: int| 0 <= j < p.len() implies p[j] == x@[j] as int by {
            assert(x@.map_values(|u: u32| u as int)[j] == p[j]);
        }
        assert forall|j: int| 0 <= j < q.len() implies q[j] == y@[j] as int by {
            assert(y@.map_values(|u: u32| u as int)[j] == q[j]);
        }
        assert(x@.len() == x@.map_values(|u: u32| u as int).len());
        assert(y@.len() == y@.map_values(|u: u32| u as int).len());
    }
    let mut i: usize = 0;
    while i < x.len() && i < y.len() && x[i] == y[i]
        invariant
            i <= x.len(),
            i <= y.len(),
            x@.len() == p.len(),
            y@.len() == q.len(),
            forall|j: int| 0 <= j < p.len() ==> p[j] == x@[j] as int,
            forall|j: int| 0 <= j < q.len() ==> q[j] == y@[j] as int,
            text::lex_less_from(p, q, 0) == text::lex_less_from(p, q, i as int),
        decreases x.len() - i,
    {
        i = i + 1;
    }
    if i >= y.len() {
        false
    } else if i >= x.len() {
        true
    } else {
        x[i] < y[i]
    }
}

// --- spelling -------------------------------------------------------------

/// The lower-case hexadecimal digit `d`.
pub open spec fn hex_digit(d: int) -> char {
    if d < 10 {
        text::digit(d)
    } else {
        ('a' as int + (d - 10)) as char
    }
}

/// How a character is written inside a string.
pub open spec fn escape_char(c: char) -> Seq<char> {
    let n = c as int;
    if n == 0x22 {
        seq!['\\', '"']
    } else if n == 0x5c {
        seq!['\\', '\\']
    } else if n == 8 {
        seq!['\\', 'b']
    } else if n == 9 {
        seq!['\\', 't']
    } else if n == 10 {
        seq!['\\', 'n']
    } else if n == 12 {
        seq!['\\', 'f']
    } else if n == 13 {
        seq!['\\', 'r']
    } else if n < 0x20 {
        seq!['\\', 'u', '0', '0', hex_digit(n / 16), hex_digit(n % 16)]
    } else {
        seq![c]
    }
}

/// The characters of a string as they are written.
pub open spec fn escaped(s: Seq<char>) -> Seq<char>
    decreases s.len(),
{
    if s.len() == 0 {
        Seq::empty()
    } else {
        escaped(s.drop_last()) + escape_char(s.last())
    }
}

/// A string in quotes.
pub open spec fn quoted(s: Seq<char>) -> Seq<char> {
    seq!['"'] + escaped(s) + seq!['"']
}

/// Ten to the power `k`.
pub open spec fn ten_to(k: nat) -> nat
    decreases k,
{
    if k == 0 {
        1
    } else {
        10 * ten_to((k - 1) as nat)
    }
}

/// The decimal places of `f / 10^places`, without trailing zeros.
pub open spec fn places_text(f: nat, places: nat) -> Seq<char>
    decreases places,
{
    if f == 0 || places == 0 {
        Seq::empty()
    } else {
        let unit = ten_to((places - 1) as nat);
        seq![text::digit((f / unit) as int)] + places_text(f % unit, (places - 1) as nat)
    }
}

/// The shortest decimal spelling of `n / 1000000`.
pub open spec fn millionths_text(n: int) -> Seq<char> {
    let size = if n < 0 { (-n) as nat } else { n as nat };
    let sign = if n < 0 { seq!['-'] } else { Seq::<char>::empty() };
    let whole = text::decimal(size / 1000000);
    let part = size % 1000000;
    if part == 0 {
        sign + whole
    } else {
        sign + whole + seq!['.'] + places_text(part, 6)
    }
}

/// The number of millionths from which a number is spelled with an exponent.
pub open spec fn exponent_from() -> nat {
    1000000000000000000000000000
}

/// A number without the zeros at its end.
pub open spec fn significand(n: nat) -> nat
    decreases n,
{
    if n > 0 && n % 10 == 0 {
        significand(n / 10)
    } else {
        n
    }
}

/// Digits with a point after the first, where more follow.
pub open spec fn pointed(digits: Seq<char>) -> Seq<char> {
    if digits.len() <= 1 {
        digits
    } else {
        digits.take(1) + seq!['.'] + digits.skip(1)
    }
}

/// The shortest spelling of `size / 1000000` with an exponent.
pub open spec fn exponent_text(size: nat) -> Seq<char> {
    pointed(text::decimal(significand(size))) + seq!['e', '+'] + text::decimal(
        (text::decimal(size).len() - 7) as nat,
    )
}

/// The spelling of `n / 1000000`: plain, or with an exponent where it is large.
pub open spec fn number_text(n: int) -> Seq<char> {
    let size = if n < 0 { (-n) as nat } else { n as nat };
    if size < exponent_from() {
        millionths_text(n)
    } else if n < 0 {
        seq!['-'] + exponent_text(size)
    } else {
        exponent_text(size)
    }
}

/// The spelling of a whole number, as that of the millionths it is.
pub open spec fn whole_text(n: int) -> Seq<char> {
    if -(exponent_from() as int) < n * 1000000 < exponent_from() {
        text::integer_text(n)
    } else {
        number_text(n * 1000000)
    }
}

/// The order in which members are written.
pub open spec fn member_order() -> spec_fn((Seq<char>, Seq<char>), (Seq<char>, Seq<char>)) -> bool {
    |a: (Seq<char>, Seq<char>), b: (Seq<char>, Seq<char>)| key_less(a.0, b.0)
}

/// One member: its key in quotes, a colon, its value.
pub open spec fn member_text(m: (Seq<char>, Seq<char>)) -> Seq<char> {
    quoted(m.0) + seq![':'] + m.1
}

/// Every member in order.
pub open spec fn member_texts(pairs: Seq<(Seq<char>, Seq<char>)>) -> Seq<Seq<char>> {
    sorting::sorted(pairs, member_order()).map_values(|m: (Seq<char>, Seq<char>)| member_text(m))
}

/// The canonical text of a value.
pub open spec fn encode(m: JsonModel) -> Seq<char>
    decreases m,
{
    match m {
        JsonModel::Null => seq!['n', 'u', 'l', 'l'],
        JsonModel::Bool(b) => if b {
            seq!['t', 'r', 'u', 'e']
        } else {
            seq!['f', 'a', 'l', 's', 'e']
        },
        JsonModel::Whole(n) => whole_text(n),
        JsonModel::Millionths(n) => number_text(n),
        JsonModel::Text(s) => quoted(s),
        JsonModel::List(items) => seq!['['] + text::joined(encoded_items(items), seq![',']) + seq![
            ']',
        ],
        JsonModel::Members(rows) => seq!['{'] + text::joined(
            member_texts(encoded_members(rows)),
            seq![','],
        ) + seq!['}'],
    }
}

/// The canonical text of each item.
pub open spec fn encoded_items(items: Seq<JsonModel>) -> Seq<Seq<char>>
    decreases items,
{
    Seq::new(
        items.len(),
        |i: int|
            if 0 <= i < items.len() {
                encode(items[i])
            } else {
                Seq::empty()
            },
    )
}

/// Each member's key and the canonical text of its value.
pub open spec fn encoded_members(rows: Seq<(Seq<char>, JsonModel)>) -> Seq<(Seq<char>, Seq<char>)>
    decreases rows,
{
    Seq::new(
        rows.len(),
        |i: int|
            if 0 <= i < rows.len() {
                (rows[i].0, encode(rows[i].1))
            } else {
                (Seq::empty(), Seq::empty())
            },
    )
}

// --- writing --------------------------------------------------------------

fn push_hex_digit(out: &mut String, d: u8)
    requires
        d < 16,
    ensures
        final(out)@ == old(out)@.push(hex_digit(d as int)),
{
    if d < 10 {
        out.push((48u8 + d) as char);
    } else {
        out.push((97u8 + (d - 10)) as char);
    }
}

fn push_escaped_char(out: &mut String, c: char)
    ensures
        final(out)@ == old(out)@ + escape_char(c),
{
    let n: u32 = c as u32;
    if n == 0x22 {
        out.push('\\');
        out.push('"');
    } else if n == 0x5c {
        out.push('\\');
        out.push('\\');
    } else if n == 8 {
        out.push('\\');
        out.push('b');
    } else if n == 9 {
        out.push('\\');
        out.push('t');
    } else if n == 10 {
        out.push('\\');
        out.push('n');
    } else if n == 12 {
        out.push('\\');
        out.push('f');
    } else if n == 13 {
        out.push('\\');
        out.push('r');
    } else if n < 0x20 {
        out.push('\\');
        out.push('u');
        out.push('0');
        out.push('0');
        push_hex_digit(out, (n / 16) as u8);
        push_hex_digit(out, (n % 16) as u8);
    } else {
        out.push(c);
    }
    proof {
        assert(out@ =~= old(out)@ + escape_char(c));
    }
}

fn push_quoted(out: &mut String, s: &str)
    ensures
        final(out)@ == old(out)@ + quoted(s@),
{
    let ghost start = out@;
    let chars = text::chars_of(s);
    out.push('"');
    let ghost open = out@;
    let mut i: usize = 0;
    proof {
        assert(s@.take(0) =~= Seq::<char>::empty());
        assert(open + escaped(s@.take(0)) =~= open);
    }
    while i < chars.len()
        invariant
            i <= chars.len(),
            chars@ == s@,
            out@ == open + escaped(s@.take(i as int)),
        decreases chars.len() - i,
    {
        push_escaped_char(out, chars[i]);
        proof {
            let c = s@[i as int];
            assert(s@.take(i + 1).drop_last() =~= s@.take(i as int));
            assert(s@.take(i + 1).last() == c);
            assert(open + escaped(s@.take(i as int)) + escape_char(c) =~= open + escaped(
                s@.take(i + 1),
            ));
        }
        i = i + 1;
    }
    out.push('"');
    proof {
        assert(s@.take(i as int) =~= s@);
        assert(out@ =~= start + quoted(s@));
    }
}

fn push_places(out: &mut String, f: u64, places: u64, unit: u64)
    requires
        places <= 6,
        places > 0 ==> unit == ten_to((places - 1) as nat),
        f < ten_to(places as nat),
    ensures
        final(out)@ == old(out)@ + places_text(f as nat, places as nat),
    decreases places,
{
    if f == 0 || places == 0 {
        proof {
            assert(out@ + Seq::<char>::empty() =~= out@);
        }
        return ;
    }
    proof {
        reveal_with_fuel(ten_to, 7);
        assert(unit > 0);
        assert(f < 10 * unit);
        assert(f / unit < 10) by (nonlinear_arith)
            requires
                f < 10 * unit,
                unit > 0,
        ;
        assert(f % unit < unit) by (nonlinear_arith)
            requires
                unit > 0,
        ;
    }
    let d: u64 = f / unit;
    out.push((48u8 + d as u8) as char);
    let ghost mid = out@;
    push_places(out, f % unit, places - 1, unit / 10);
    proof {
        assert(out@ =~= old(out)@ + places_text(f as nat, places as nat));
    }
}

fn push_millionths(out: &mut String, negative: bool, size: u128)
    requires
        negative ==> size > 0,
    ensures
        final(out)@ == old(out)@ + millionths_text(
            if negative {
                -(size as int)
            } else {
                size as int
            },
        ),
{
    let ghost start = out@;
    if negative {
        out.push('-');
    }
    text::push_wide_decimal(out, size / 1_000_000);
    let part: u64 = (size % 1_000_000) as u64;
    if part != 0 {
        out.push('.');
        proof {
            reveal_with_fuel(ten_to, 7);
        }
        push_places(out, part, 6, 100_000);
    }
    proof {
        assert(out@ =~= start + millionths_text(
            if negative {
                -(size as int)
            } else {
                size as int
            },
        ));
    }
}

fn size_of(n: i64) -> (r: u64)
    ensures
        r == (if n < 0 { -(n as int) } else { n as int }),
{
    if n >= 0 {
        n as u64
    } else if n == i64::MIN {
        0x8000_0000_0000_0000u64
    } else {
        (-n) as u64
    }
}

pub proof fn lemma_trailing_zeros(m: nat, zeros: nat)
    requires
        m > 0,
    ensures
        significand(m * ten_to(zeros)) == significand(m),
        text::decimal(m * ten_to(zeros)).len() == text::decimal(m).len() + zeros,
        m * ten_to(zeros) > 0,
    decreases zeros,
{
    if zeros == 0 {
        assert(m * ten_to(0) == m);
    } else {
        let fewer = (zeros - 1) as nat;
        lemma_trailing_zeros(m, fewer);
        let x = ten_to(fewer);
        let n = m * x;
        assert(m * (10 * x) == 10 * n) by (nonlinear_arith)
            requires
                n == m * x,
        ;
        assert((10 * n) % 10 == 0);
        assert((10 * n) / 10 == n);
    }
}

proof fn lemma_long_decimal(n: nat, k: nat)
    requires
        n >= ten_to(k),
    ensures
        text::decimal(n).len() > k,
    decreases k,
{
    decimal::lemma_ten_to_positive(k);
    if k > 0 {
        decimal::lemma_ten_to_positive((k - 1) as nat);
        assert(n / 10 >= ten_to((k - 1) as nat));
        lemma_long_decimal(n / 10, (k - 1) as nat);
    }
}

/// How many digits a number has that is spelled with an exponent.
pub proof fn lemma_long_numbers(n: nat)
    requires
        n >= exponent_from(),
    ensures
        text::decimal(n).len() > 27,
{
    assert(ten_to(27) == exponent_from()) by {
        reveal_with_fuel(ten_to, 28);
    }
    lemma_long_decimal(n, 27);
}

fn push_exponent(out: &mut String, size: u64, zeros: u16)
    requires
        size > 0,
        size * ten_to(zeros as nat) >= exponent_from(),
    ensures
        final(out)@ == old(out)@ + exponent_text((size * ten_to(zeros as nat)) as nat),
{
    let ghost start = out@;
    let ghost whole = (size * ten_to(zeros as nat)) as nat;
    let mut m: u64 = size;
    let mut after: u128 = zeros as u128;
    while m % 10 == 0
        invariant
            m > 0,
            after + m <= zeros + size,
            whole == m * ten_to(after as nat),
        decreases m,
    {
        proof {
            let x = ten_to(after as nat);
            let k = (m / 10) as nat;
            assert(m == 10 * k);
            assert((10 * k) * x == k * (10 * x)) by (nonlinear_arith);
        }
        m = m / 10;
        after = after + 1;
    }
    let digits = text::decimal_text(m);
    let chars = text::chars_of(digits.as_str());
    proof {
        lemma_trailing_zeros(m as nat, after as nat);
        assert(significand(m as nat) == m);
        lemma_long_numbers(whole);
        assert(chars@.len() > 0);
    }
    out.push(chars[0]);
    if chars.len() > 1 {
        out.push('.');
        let ghost opened = out@;
        let mut i: usize = 1;
        while i < chars.len()
            invariant
                1 <= i <= chars.len(),
                out@ == opened + chars@.subrange(1, i as int),
            decreases chars.len() - i,
        {
            out.push(chars[i]);
            proof {
                assert(chars@.subrange(1, i + 1) =~= chars@.subrange(1, i as int).push(
                    chars@[i as int],
                ));
            }
            i = i + 1;
        }
        proof {
            assert(chars@.subrange(1, i as int) =~= chars@.skip(1));
        }
    }
    proof {
        assert(out@ =~= start + pointed(chars@));
    }
    out.push('e');
    out.push('+');
    text::push_wide_decimal(out, after + chars.len() as u128 - 7);
    proof {
        assert(out@ =~= start + exponent_text(whole));
    }
}

fn push_scaled(out: &mut String, digits: i64, zeros: u16)
    ensures
        final(out)@ == old(out)@ + number_text(decimal::scaled(digits as int, zeros as nat)),
{
    let ghost start = out@;
    let size: u64 = size_of(digits);
    let ghost whole = (size * ten_to(zeros as nat)) as nat;
    proof {
        assert(ten_to(0) == 1);
        assert(size * ten_to(0) == size);
        decimal::lemma_ten_to_positive(zeros as nat);
        let x = ten_to(zeros as nat) as int;
        let d = digits as int;
        assert((-d) * x == -(d * x)) by (nonlinear_arith);
        assert(d < 0 ==> d * x < 0) by (nonlinear_arith)
            requires
                x > 0,
        ;
        assert(d >= 0 ==> d * x >= 0) by (nonlinear_arith)
            requires
                x > 0,
        ;
    }
    let mut wide: u128 = size as u128;
    let mut i: u16 = 0;
    while i < zeros && wide < 1_000_000_000_000_000_000_000_000_000u128
        invariant
            i <= zeros,
            wide == size * ten_to(i as nat),
            wide < 10_000_000_000_000_000_000_000_000_000u128,
        decreases zeros - i,
    {
        proof {
            let x = ten_to(i as nat) as int;
            let d = size as int;
            assert(ten_to((i + 1) as nat) == 10 * x);
            assert(d * (10 * x) == 10 * (d * x)) by (nonlinear_arith);
        }
        wide = wide * 10;
        i = i + 1;
    }
    if wide < 1_000_000_000_000_000_000_000_000_000u128 {
        push_millionths(out, digits < 0, wide);
    } else {
        proof {
            decimal::lemma_scaled_grows(size as int, i as nat, zeros as nat);
        }
        if digits < 0 {
            out.push('-');
        }
        push_exponent(out, size, zeros);
    }
    proof {
        assert(out@ =~= start + number_text(decimal::scaled(digits as int, zeros as nat)));
    }
}

fn push_integer(out: &mut String, n: i64)
    ensures
        final(out)@ == old(out)@ + text::integer_text(n as int),
{
    let ghost start = out@;
    if n < 0 {
        out.push('-');
        if n == i64::MIN {
            text::push_decimal(out, 0x8000_0000_0000_0000u64);
        } else {
            text::push_decimal(out, (-n) as u64);
        }
    } else {
        text::push_decimal(out, n as u64);
    }
    proof {
        assert(out@ =~= start + text::integer_text(n as int));
    }
}

/// What a list of written members says.
pub open spec fn pair_texts(v: Seq<(String, String)>) -> Seq<(Seq<char>, Seq<char>)> {
    v.map_values(|m: (String, String)| (m.0@, m.1@))
}

/// Write out members in order, between braces.
fn push_members(out: &mut String, members: Vec<(String, String)>)
    ensures
        final(out)@ == old(out)@ + (seq!['{'] + text::joined(
            member_texts(pair_texts(members@)),
            seq![','],
        ) + seq!['}']),
{
    let ghost start = out@;
    let ghost f = |m: (String, String)| (m.0@, m.1@);
    let ghost lt = |a: (String, String), b: (String, String)| key_less(a.0@, b.0@);
    let ghost before = members@;
    let less = |a: &(String, String), b: &(String, String)| -> (r: bool)
        ensures
            r == key_less(a.0@, b.0@),
        { key_before(a.0.as_str(), b.0.as_str()) };
    let ordered = sorting::stable_sort(members, less, Ghost(lt));
    let ghost parts = member_texts(pair_texts(before));
    proof {
        sorting::lemma_sorted_map(before, f, lt, member_order());
        sorting::lemma_sorted_keeps_items(before, lt);
        assert(parts.len() == ordered@.len());
        assert forall|i: int| 0 <= i < ordered@.len() implies parts[i] == member_text(
            (ordered@[i].0@, ordered@[i].1@),
        ) by {
            assert(sorting::sorted(pair_texts(before), member_order())[i] == f(ordered@[i]));
        }
    }
    out.push('{');
    let ghost open = out@;
    let mut i: usize = 0;
    proof {
        assert(open + text::joined(parts.take(0), seq![',']) =~= open);
    }
    while i < ordered.len()
        invariant
            i <= ordered.len(),
            parts.len() == ordered@.len(),
            forall|j: int|
                0 <= j < ordered@.len() ==> parts[j] == member_text(
                    (ordered@[j].0@, ordered@[j].1@),
                ),
            out@ == open + text::joined(parts.take(i as int), seq![',']),
        decreases ordered.len() - i,
    {
        let ghost so_far = out@;
        if i > 0 {
            out.push(',');
        }
        push_quoted(out, ordered[i].0.as_str());
        out.push(':');
        out.append(ordered[i].1.as_str());
        proof {
            let next = parts.take(i + 1);
            assert(next.drop_last() =~= parts.take(i as int));
            assert(next.last() == parts[i as int]);
            if i > 0 {
                assert(out@ =~= open + text::joined(next, seq![',']));
            } else {
                assert(next.len() == 1);
                assert(out@ =~= open + text::joined(next, seq![',']));
            }
        }
        i = i + 1;
    }
    out.push('}');
    proof {
        assert(parts.take(i as int) =~= parts);
        assert(out@ =~= start + (seq!['{'] + text::joined(parts, seq![',']) + seq!['}']));
    }
}

/// Append the canonical text of a value.
fn write(json: &Json, out: &mut String)
    ensures
        final(out)@ == old(out)@ + encode(json@),
    decreases json,
{
    let ghost start = out@;
    match json {
        Json::Null => {
            out.push('n');
            out.push('u');
            out.push('l');
            out.push('l');
        },
        Json::Bool(b) => {
            if *b {
                out.push('t');
                out.push('r');
                out.push('u');
                out.push('e');
            } else {
                out.push('f');
                out.push('a');
                out.push('l');
                out.push('s');
                out.push('e');
            }
        },
        Json::Unsigned(n) => {
            text::push_decimal(out, *n);
        },
        Json::Signed(n) => {
            push_integer(out, *n);
        },
        Json::Millionths(n) => {
            push_millionths(out, *n < 0, size_of(*n) as u128);
        },
        Json::Scaled { digits, zeros } => {
            push_scaled(out, *digits, *zeros);
        },
        Json::Text(s) => {
            push_quoted(out, s.as_str());
        },
        Json::List(v) => {
            let ghost parts = encoded_items(models(v@));
            proof {
                lemma_list_model(*v);
            }
            out.push('[');
            let ghost open = out@;
            let mut i: usize = 0;
            proof {
                assert(open + text::joined(parts.take(0), seq![',']) =~= open);
            }
            while i < v.len()
                invariant
                    i <= v.len(),
                    *json == Json::List(*v),
                    parts == encoded_items(models(v@)),
                    out@ == open + text::joined(parts.take(i as int), seq![',']),
                decreases v.len() - i,
            {
                if i > 0 {
                    out.push(',');
                }
                proof {
                    assert(decreases_to!(json => json->List_0));
                    assert(decreases_to!(v => v@));
                    assert(decreases_to!(v@ => v@[i as int]));
                }
                write(&v[i], out);
                proof {
                    let next = parts.take(i + 1);
                    assert(next.drop_last() =~= parts.take(i as int));
                    assert(next.last() == encode(v@[i as int]@));
                    assert(out@ =~= open + text::joined(next, seq![',']));
                }
                i = i + 1;
            }
            out.push(']');
            proof {
                assert(parts.take(i as int) =~= parts);
            }
        },
        Json::Members(v) => {
            let ghost rows = member_models(v@);
            proof {
                lemma_members_model(*v);
            }
            let mut written: Vec<(String, String)> = Vec::new();
            let mut i: usize = 0;
            while i < v.len()
                invariant
                    i <= v.len(),
                    *json == Json::Members(*v),
                    rows == member_models(v@),
                    written@.len() == i,
                    forall|j: int|
                        0 <= j < i ==> (#[trigger] written@[j]).0@ == rows[j].0 && written@[j].1@
                            == encode(rows[j].1),
                decreases v.len() - i,
            {
                let mut value = String::new();
                proof {
                    assert(decreases_to!(json => json->Members_0));
                    assert(decreases_to!(v => v@));
                    assert(decreases_to!(v@ => v@[i as int]));
                    assert(decreases_to!(v@[i as int] => v@[i as int].1));
                }
                write(&v[i].1, &mut value);
                proof {
                    assert(value@ =~= encode(rows[i as int].1));
                }
                written.push((v[i].0.clone(), value));
                i = i + 1;
            }
            proof {
                assert(pair_texts(written@) =~= encoded_members(rows));
            }
            push_members(out, written);
        },
    }
    proof {
        assert(out@ =~= start + encode(json@));
    }
}

/// The canonical text of a value.
pub fn to_canonical_string(json: &Json) -> (r: String)
    ensures
        r@ == encode(json@),
{
    let mut out = String::new();
    write(json, &mut out);
    proof {
        assert(Seq::<char>::empty() + encode(json@) =~= encode(json@));
    }
    out
}

// --- digests --------------------------------------------------------------

/// The SHA-256 hash of a text's UTF-8 bytes, in lower-case hexadecimal.
pub uninterp spec fn sha256_hex_of(text: Seq<char>) -> Seq<char>;

/// `sha2::Sha256::digest` over the UTF-8 bytes of `text`, spelled in lower-case
/// hexadecimal by the `LowerHex` of its output array: a function of the text
/// alone, and two digits for each of its thirty-two bytes.
#[verifier::external_body]
fn sha256_hex(text: &str) -> (r: String)
    ensures
        r@ == sha256_hex_of(text@),
        r@.len() == 64,
{
    format!("{:x}", Sha256::digest(text.as_bytes()))
}

/// What a digest over a value is: the hash of its canonical text.
pub open spec fn digest_of(m: JsonModel) -> Seq<char> {
    sha256_hex_of(encode(m))
}

/// The digest of a value.
pub fn digest(json: &Json) -> (r: String)
    ensures
        r@ == digest_of(json@),
        r@.len() == 64,
{
    let written = to_canonical_string(json);
    sha256_hex(written.as_str())
}

// --- laws -----------------------------------------------------------------

proof fn lemma_no_surrogate(c: char)
    ensures
        !(0xd800 <= c as int <= 0xdfff),
{
}

proof fn lemma_utf16_injective(a: Seq<char>, b: Seq<char>)
    requires
        utf16(a) == utf16(b),
    ensures
        a == b,
    decreases a.len(),
{
    if a.len() == 0 || b.len() == 0 {
        if a.len() > 0 {
            assert(utf16(a).len() > 0);
        }
        if b.len() > 0 {
            assert(utf16(b).len() > 0);
        }
        assert(a =~= b);
    } else {
        let ua = utf16(a.drop_last());
        let ub = utf16(b.drop_last());
        let ca = utf16_char(a.last());
        let cb = utf16_char(b.last());
        let whole = utf16(a);
        let n = whole.len() as int;
        assert(whole[n - 1] == ca.last());
        assert(whole[n - 1] == cb.last());
        let x = a.last() as int;
        let y = b.last() as int;
        assert((x - 0x10000) % 0x400 >= 0 && (x - 0x10000) % 0x400 < 0x400);
        assert((y - 0x10000) % 0x400 >= 0 && (y - 0x10000) % 0x400 < 0x400);
        lemma_no_surrogate(a.last());
        lemma_no_surrogate(b.last());
        assert(ca.len() == 1 ==> ca.last() == x);
        assert(cb.len() == 1 ==> cb.last() == y);
        assert(ca.len() == cb.len());
        assert(ua =~= ub) by {
            assert(ua.len() == ub.len());
            assert forall|i: int| 0 <= i < ua.len() implies ua[i] == ub[i] by {
                assert(whole[i] == ua[i]);
                assert(whole[i] == ub[i]);
            }
        }
        assert(ca =~= cb) by {
            assert forall|i: int| 0 <= i < ca.len() implies ca[i] == cb[i] by {
                assert(whole[ua.len() + i] == ca[i]);
                assert(whole[ub.len() + i] == cb[i]);
            }
        }
        assert(ca[0] == cb[0]);
        assert(x == y);
        lemma_utf16_injective(a.drop_last(), b.drop_last());
        assert(a =~= a.drop_last().push(a.last()));
        assert(b =~= b.drop_last().push(b.last()));
    }
}

/// The canonical text of an object does not depend on the order its members
/// were written in, where no key is written twice.
pub proof fn lemma_member_order_is_irrelevant(
    a: Seq<(Seq<char>, JsonModel)>,
    b: Seq<(Seq<char>, JsonModel)>,
)
    requires
        a.to_multiset() =~= b.to_multiset(),
        forall|i: int, j: int|
            0 <= i < j < a.len() ==> (#[trigger] a[i]).0 != (#[trigger] a[j]).0,
    ensures
        encode(JsonModel::Members(a)) == encode(JsonModel::Members(b)),
        digest_of(JsonModel::Members(a)) == digest_of(JsonModel::Members(b)),
{
    let f = |m: (Seq<char>, JsonModel)| (m.0, encode(m.1));
    let lt = |x: (Seq<char>, JsonModel), y: (Seq<char>, JsonModel)| key_less(x.0, y.0);
    let key = |m: (Seq<char>, JsonModel)| utf16(m.0);
    sorting::lemma_order_by_key(lt, key);
    assert forall|i: int, j: int| 0 <= i < j < a.len() implies lt(
        #[trigger] a[i],
        #[trigger] a[j],
    ) || lt(a[j], a[i]) by {
        text::lemma_lex_order(utf16(a[i].0), utf16(a[j].0), utf16(a[i].0));
        if utf16(a[i].0) == utf16(a[j].0) {
            lemma_utf16_injective(a[i].0, a[j].0);
        }
    }
    sorting::lemma_sorted_permuted(a, b, lt);
    sorting::lemma_sorted_map(a, f, lt, member_order());
    sorting::lemma_sorted_map(b, f, lt, member_order());
    assert(encoded_members(a) =~= a.map_values(f));
    assert(encoded_members(b) =~= b.map_values(f));
}

proof fn lemma_joined_no_longer(a: Seq<Seq<char>>, b: Seq<Seq<char>>, sep: Seq<char>)
    requires
        a.len() == b.len(),
        forall|i: int|
            0 <= i < a.len() ==> text::byte_len(#[trigger] a[i]) <= text::byte_len(b[i]),
    ensures
        text::byte_len(text::joined(a, sep)) <= text::byte_len(text::joined(b, sep)),
    decreases a.len(),
{
    if a.len() > 1 {
        lemma_joined_no_longer(a.drop_last(), b.drop_last(), sep);
        let ha = text::joined(a.drop_last(), sep);
        let hb = text::joined(b.drop_last(), sep);
        text::lemma_byte_len_concat(ha + sep, a.last());
        text::lemma_byte_len_concat(hb + sep, b.last());
        text::lemma_byte_len_concat(ha, sep);
        text::lemma_byte_len_concat(hb, sep);
    }
}

/// An object whose members are no longer than another's, key for key, is no
/// longer itself.
pub proof fn lemma_members_no_longer(
    a: Seq<(Seq<char>, JsonModel)>,
    b: Seq<(Seq<char>, JsonModel)>,
)
    requires
        a.len() == b.len(),
        forall|i: int|
            0 <= i < a.len() ==> (#[trigger] a[i]).0 == b[i].0 && text::byte_len(encode(a[i].1))
                <= text::byte_len(encode(b[i].1)),
    ensures
        text::byte_len(encode(JsonModel::Members(a))) <= text::byte_len(
            encode(JsonModel::Members(b)),
        ),
{
    let both = Seq::new(a.len(), |i: int| (a[i].0, encode(a[i].1), encode(b[i].1)));
    let first = |m: (Seq<char>, Seq<char>, Seq<char>)| (m.0, m.1);
    let second = |m: (Seq<char>, Seq<char>, Seq<char>)| (m.0, m.2);
    let lt = |x: (Seq<char>, Seq<char>, Seq<char>), y: (Seq<char>, Seq<char>, Seq<char>)|
        key_less(x.0, y.0);
    sorting::lemma_sorted_map(both, first, lt, member_order());
    sorting::lemma_sorted_map(both, second, lt, member_order());
    assert(encoded_members(a) =~= both.map_values(first));
    assert(encoded_members(b) =~= both.map_values(second));
    let ta = member_texts(encoded_members(a));
    let tb = member_texts(encoded_members(b));
    let s = sorting::sorted(both, lt);
    sorting::lemma_sorted_keeps_items(both, lt);
    assert forall|i: int| 0 <= i < ta.len() implies text::byte_len(#[trigger] ta[i])
        <= text::byte_len(tb[i]) by {
        sorting::lemma_sorted_item(both, lt, i);
        let k = choose|k: int| 0 <= k < both.len() && both[k] == s[i];
        assert(a[k].0 == b[k].0);
        let key = quoted(s[i].0) + seq![':'];
        assert(ta[i] == key + s[i].1);
        assert(tb[i] == key + s[i].2);
        text::lemma_byte_len_concat(key, s[i].1);
        text::lemma_byte_len_concat(key, s[i].2);
    }
    lemma_joined_no_longer(ta, tb, seq![',']);
    let ja = text::joined(ta, seq![',']);
    let jb = text::joined(tb, seq![',']);
    text::lemma_byte_len_concat(seq!['{'] + ja, seq!['}']);
    text::lemma_byte_len_concat(seq!['{'] + jb, seq!['}']);
    text::lemma_byte_len_concat(seq!['{'], ja);
    text::lemma_byte_len_concat(seq!['{'], jb);
}

/// The members of an object come out in the order of their keys, whatever order
/// they were written in.
pub proof fn lemma_keys_come_out_in_order(rows: Seq<(Seq<char>, JsonModel)>)
    ensures
        ({
            let out = sorting::sorted(encoded_members(rows), member_order());
            &&& out.to_multiset() =~= encoded_members(rows).to_multiset()
            &&& forall|i: int, j: int|
                0 <= i < j < out.len() ==> !key_less((#[trigger] out[j]).0, (#[trigger] out[i]).0)
        }),
{
    let pairs = encoded_members(rows);
    sorting::lemma_order_by_key(member_order(), |m: (Seq<char>, Seq<char>)| utf16(m.0));
    sorting::lemma_sorted_ascending(pairs, member_order());
    sorting::lemma_sorted_keeps_items(pairs, member_order());
    let out = sorting::sorted(pairs, member_order());
    assert forall|i: int, j: int| 0 <= i < j < out.len() implies !key_less(
        (#[trigger] out[j]).0,
        (#[trigger] out[i]).0,
    ) by {
        assert(!member_order()(out[j], out[i]));
    }
}

proof fn lemma_plain_escaped(s: Seq<char>)
    requires
        forall|i: int|
            0 <= i < s.len() ==> ' ' <= #[trigger] s[i] <= '~' && s[i] != '"' && s[i] != '\\',
    ensures
        escaped(s) == s,
    decreases s.len(),
{
    if s.len() > 0 {
        let rest = s.drop_last();
        assert forall|i: int| 0 <= i < rest.len() implies ' ' <= #[trigger] rest[i] <= '~' && rest[i]
            != '"' && rest[i] != '\\' by {
            assert(rest[i] == s[i]);
        }
        lemma_plain_escaped(rest);
        assert(s.last() == s[s.len() - 1]);
        assert(escaped(s) =~= s);
    }
}

/// How values without parts are written: the three words as they are, a whole number
/// below the size at which an exponent is used by its digits, and a text of plain
/// characters as it is, in quotes.
pub proof fn lemma_how_plain_values_are_written(n: int, s: Seq<char>)
    requires
        -1000000000000000000000 < n < 1000000000000000000000,
        forall|i: int|
            0 <= i < s.len() ==> ' ' <= #[trigger] s[i] <= '~' && s[i] != '"' && s[i] != '\\',
    ensures
        encode(JsonModel::Null) == "null"@,
        encode(JsonModel::Bool(true)) == "true"@,
        encode(JsonModel::Bool(false)) == "false"@,
        n >= 0 ==> encode(JsonModel::Whole(n)) == text::decimal(n as nat),
        n < 0 ==> encode(JsonModel::Whole(n)) == seq!['-'] + text::decimal((-n) as nat),
        encode(JsonModel::Text(s)) == seq!['"'] + s + seq!['"'],
{
    reveal_strlit("null");
    reveal_strlit("true");
    reveal_strlit("false");
    assert(encode(JsonModel::Null) =~= "null"@);
    assert(encode(JsonModel::Bool(true)) =~= "true"@);
    assert(encode(JsonModel::Bool(false)) =~= "false"@);
    lemma_plain_escaped(s);
    assert(encode(JsonModel::Text(s)) =~= seq!['"'] + s + seq!['"']);
}

/// How a text is escaped, character by character: a quote and a backslash behind a
/// backslash, the five controls that have a letter by that letter, any other control
/// by its number in two digits, and everything else as it is.
pub proof fn lemma_how_characters_are_escaped(c: char)
    ensures
        c == '"' ==> escaped(seq![c]) == seq!['\\', '"'],
        c == '\\' ==> escaped(seq![c]) == seq!['\\', '\\'],
        c as int == 8 ==> escaped(seq![c]) == seq!['\\', 'b'],
        c == '\t' ==> escaped(seq![c]) == seq!['\\', 't'],
        c == '\n' ==> escaped(seq![c]) == seq!['\\', 'n'],
        c as int == 12 ==> escaped(seq![c]) == seq!['\\', 'f'],
        c == '\r' ==> escaped(seq![c]) == seq!['\\', 'r'],
        c as int == 0 ==> escaped(seq![c]) == seq!['\\', 'u', '0', '0', '0', '0'],
        c as int == 31 ==> escaped(seq![c]) == seq!['\\', 'u', '0', '0', '1', 'f'],
        c as int >= 32 && c != '"' && c != '\\' ==> escaped(seq![c]) == seq![c],
{
    let one = seq![c];
    assert(one.drop_last() =~= Seq::<char>::empty());
    assert(one.last() == c);
    assert(escaped(Seq::<char>::empty()) =~= Seq::<char>::empty());
    assert(escaped(one) =~= escape_char(c));
}

/// The decimal places that a run of digits behind the point stands for.
pub open spec fn places_spelled(s: Seq<char>, places: nat) -> int
    decreases s.len(),
{
    if s.len() == 0 {
        0
    } else {
        (s[0] as int - '0' as int) * ten_to((places - 1) as nat) + places_spelled(
            s.drop_first(),
            (places - 1) as nat,
        )
    }
}

proof fn lemma_places_read_back(f: nat, places: nat)
    requires
        f < ten_to(places),
    ensures
        places_spelled(places_text(f, places), places) == f,
        places_text(f, places).len() <= places,
    decreases places,
{
    if f > 0 && places > 0 {
        let unit = ten_to((places - 1) as nat);
        decimal::lemma_ten_to_positive((places - 1) as nat);
        assert(ten_to(places) == 10 * unit);
        assert(f % unit < unit && f / unit < 10 && f == (f / unit) * unit + f % unit)
            by (nonlinear_arith)
            requires
                unit > 0,
                f < 10 * unit,
        ;
        lemma_places_read_back(f % unit, (places - 1) as nat);
        let s = places_text(f, places);
        assert(s.drop_first() =~= places_text(f % unit, (places - 1) as nat));
        assert(s[0] == text::digit((f / unit) as int));
        assert(s[0] as int - '0' as int == f / unit);
    }
}

/// A number of millionths that is small enough to be written without an exponent is
/// written as its whole part, and behind a point the rest of it: the digits read back
/// as what was written.
pub proof fn lemma_millionths_read_back(n: nat)
    requires
        n < exponent_from(),
    ensures
        ({
            let s = encode(JsonModel::Millionths(n as int));
            let whole = text::decimal(n / 1000000);
            let places = s.skip(whole.len() as int + 1);
            &&& n % 1000000 == 0 ==> s == whole
            &&& n % 1000000 != 0 ==> s == whole + seq!['.'] + places && places_spelled(places, 6)
                == n % 1000000 && places.len() <= 6
        }),
{
    assert(ten_to(6) == 1000000) by {
        reveal_with_fuel(ten_to, 7);
    }
    lemma_places_read_back(n % 1000000, 6);
    let s = encode(JsonModel::Millionths(n as int));
    let whole = text::decimal(n / 1000000);
    if n % 1000000 == 0 {
        assert(s =~= whole);
    } else {
        assert(s =~= whole + seq!['.'] + places_text(n % 1000000, 6));
        assert(s.skip(whole.len() as int + 1) =~= places_text(n % 1000000, 6));
    }
}

proof fn lemma_one_unit(c: char)
    ensures
        utf16(seq![c]) == utf16_char(c),
{
    assert(seq![c].drop_last() =~= Seq::<char>::empty());
    assert(utf16(Seq::<char>::empty()) =~= Seq::<int>::empty());
    assert(utf16(seq![c]) =~= utf16_char(c));
}

/// How keys of one character are ordered: by their number, except that a character
/// that takes two code units comes before the characters behind the surrogates.
pub proof fn lemma_how_keys_are_ordered(a: char, b: char)
    ensures
        ({
            let x = a as int;
            let y = b as int;
            let less = key_less(seq![a], seq![b]);
            &&& x < 0x10000 && y < 0x10000 ==> (less <==> x < y)
            &&& x >= 0x10000 && y >= 0x10000 ==> (less <==> x < y)
            &&& x >= 0x10000 && y < 0x10000 ==> (less <==> y >= 0xe000)
            &&& x < 0x10000 && y >= 0x10000 ==> (less <==> x < 0xd800)
        }),
{
    lemma_one_unit(a);
    lemma_one_unit(b);
    let none = Seq::<int>::empty();
    let u = utf16_char(a);
    let v = utf16_char(b);
    assert(u =~= seq![u[0]] + u.skip(1));
    assert(v =~= seq![v[0]] + v.skip(1));
    text::lemma_lex_first(u[0], v[0], u.skip(1), v.skip(1));
    text::lemma_lex_order(none, none, none);
    assert(text::lex_less(none, none) == false);
    if a as int >= 0x10000 && b as int >= 0x10000 {
        assert(u.skip(1) =~= seq![u[1]] + none);
        assert(v.skip(1) =~= seq![v[1]] + none);
        text::lemma_lex_first(u[1], v[1], none, none);
    } else if (a as int) < 0x10000 && (b as int) < 0x10000 {
        assert(u.skip(1) =~= none);
        assert(v.skip(1) =~= none);
    }
}

/// A key comes after every key that it continues.
pub proof fn lemma_a_prefix_comes_first(a: Seq<char>, b: Seq<char>)
    requires
        b.len() > 0,
    ensures
        key_less(a, a + b),
        !key_less(a + b, a),
{
    lemma_units_concat(a, b);
    lemma_units_there(b);
    lemma_prefix_less(utf16(a), utf16(b), 0);
    text::lemma_lex_order(utf16(a), utf16(a + b), utf16(a));
}

proof fn lemma_units_concat(a: Seq<char>, b: Seq<char>)
    ensures
        utf16(a + b) == utf16(a) + utf16(b),
    decreases b.len(),
{
    if b.len() == 0 {
        assert(a + b =~= a);
        assert(utf16(a) + utf16(b) =~= utf16(a));
    } else {
        lemma_units_concat(a, b.drop_last());
        assert((a + b).drop_last() =~= a + b.drop_last());
        assert((a + b).last() == b.last());
        assert(utf16(a + b) =~= utf16(a) + utf16(b));
    }
}

proof fn lemma_units_there(s: Seq<char>)
    requires
        s.len() > 0,
    ensures
        utf16(s).len() > 0,
{
}

proof fn lemma_prefix_less(a: Seq<int>, b: Seq<int>, i: int)
    requires
        0 <= i <= a.len(),
        b.len() > 0,
    ensures
        text::lex_less_from(a, a + b, i),
    decreases a.len() - i,
{
    if i < a.len() {
        lemma_prefix_less(a, b, i + 1);
    }
}

} // verus!
