//! Canonical text has one reading: two values with one text say the same.
use vstd::prelude::*;

use crate::canonical;
use crate::canonical::JsonModel;
use crate::decimal;
use crate::sorting;
use crate::text;

verus! {

// --- what it is to say the same -------------------------------------------

/// A number in millionths.
pub open spec fn number(m: JsonModel) -> Option<int> {
    match m {
        JsonModel::Whole(n) => Some(n * 1000000),
        JsonModel::Millionths(n) => Some(n),
        _ => None,
    }
}

/// Whether two values say the same, member for member in the order they stand.
pub open spec fn same(a: JsonModel, b: JsonModel) -> bool
    decreases a,
{
    match (a, b) {
        (JsonModel::Null, JsonModel::Null) => true,
        (JsonModel::Bool(x), JsonModel::Bool(y)) => x == y,
        (JsonModel::Text(x), JsonModel::Text(y)) => x == y,
        (JsonModel::List(x), JsonModel::List(y)) => x.len() == y.len() && forall|i: int|
            0 <= i < x.len() ==> same(#[trigger] x[i], y[i]),
        (JsonModel::Members(x), JsonModel::Members(y)) => x.len() == y.len() && forall|i: int|
            0 <= i < x.len() ==> (#[trigger] x[i]).0 == y[i].0 && same(x[i].1, y[i].1),
        _ => number(a) is Some && number(a) == number(b),
    }
}

/// The order of members by key.
pub open spec fn row_order() -> spec_fn((Seq<char>, JsonModel), (Seq<char>, JsonModel)) -> bool {
    |a: (Seq<char>, JsonModel), b: (Seq<char>, JsonModel)| canonical::key_less(a.0, b.0)
}

/// A value with the members of every object in the order of their keys.
pub open spec fn ordered(m: JsonModel) -> JsonModel
    decreases m,
{
    match m {
        JsonModel::List(items) => JsonModel::List(ordered_items(items)),
        JsonModel::Members(rows) => JsonModel::Members(
            sorting::sorted(ordered_rows(rows), row_order()),
        ),
        _ => m,
    }
}

/// Each item, ordered.
pub open spec fn ordered_items(items: Seq<JsonModel>) -> Seq<JsonModel>
    decreases items,
{
    Seq::new(
        items.len(),
        |i: int|
            if 0 <= i < items.len() {
                ordered(items[i])
            } else {
                JsonModel::Null
            },
    )
}

/// Each member with its value ordered.
pub open spec fn ordered_rows(rows: Seq<(Seq<char>, JsonModel)>) -> Seq<(Seq<char>, JsonModel)>
    decreases rows,
{
    Seq::new(
        rows.len(),
        |i: int|
            if 0 <= i < rows.len() {
                (rows[i].0, ordered(rows[i].1))
            } else {
                (Seq::empty(), JsonModel::Null)
            },
    )
}

// --- spelling in place ----------------------------------------------------

/// The items from `i` on, a comma before each but the first.
spec fn chain(parts: Seq<Seq<char>>, i: int) -> Seq<char>
    decreases parts.len() - i,
{
    if i < 0 || i >= parts.len() {
        Seq::empty()
    } else if i == 0 {
        parts[0] + chain(parts, 1)
    } else {
        seq![','] + parts[i] + chain(parts, i + 1)
    }
}

proof fn lemma_chain_last(parts: Seq<Seq<char>>, i: int)
    requires
        1 <= i < parts.len(),
    ensures
        chain(parts, i) == chain(parts.drop_last(), i) + seq![','] + parts.last(),
    decreases parts.len() - i,
{
    let rest = parts.drop_last();
    if i == parts.len() - 1 {
        assert(chain(parts, i + 1) =~= Seq::empty());
        assert(chain(rest, i) =~= Seq::empty());
        assert(chain(parts, i) =~= chain(rest, i) + seq![','] + parts.last());
    } else {
        lemma_chain_last(parts, i + 1);
        assert(rest[i] == parts[i]);
        assert(chain(parts, i) =~= chain(rest, i) + seq![','] + parts.last());
    }
}

proof fn lemma_chain(parts: Seq<Seq<char>>)
    ensures
        text::joined(parts, seq![',']) == chain(parts, 0),
    decreases parts.len(),
{
    if parts.len() == 1 {
        assert(chain(parts, 1) =~= Seq::empty());
        assert(chain(parts, 0) =~= parts[0]);
    } else if parts.len() > 1 {
        let rest = parts.drop_last();
        lemma_chain(rest);
        lemma_chain_last(parts, 1);
        assert(rest[0] == parts[0]);
        assert(chain(parts, 0) =~= chain(rest, 0) + seq![','] + parts.last());
    }
}

/// The text of a value with its members in the order they stand.
spec fn spelled(m: JsonModel) -> Seq<char>
    decreases m,
{
    match m {
        JsonModel::List(items) => seq!['['] + chain(spelled_items(items), 0) + seq![']'],
        JsonModel::Members(rows) => seq!['{'] + chain(spelled_rows(rows), 0) + seq!['}'],
        _ => canonical::encode(m),
    }
}

spec fn spelled_items(items: Seq<JsonModel>) -> Seq<Seq<char>>
    decreases items,
{
    Seq::new(
        items.len(),
        |i: int|
            if 0 <= i < items.len() {
                spelled(items[i])
            } else {
                Seq::empty()
            },
    )
}

spec fn spelled_rows(rows: Seq<(Seq<char>, JsonModel)>) -> Seq<Seq<char>>
    decreases rows,
{
    Seq::new(
        rows.len(),
        |i: int|
            if 0 <= i < rows.len() {
                canonical::quoted(rows[i].0) + seq![':'] + spelled(rows[i].1)
            } else {
                Seq::empty()
            },
    )
}

/// Writing a value orders it, and writes it as it then stands.
proof fn lemma_spelled(m: JsonModel)
    ensures
        canonical::encode(m) == spelled(ordered(m)),
    decreases m,
{
    match m {
        JsonModel::List(items) => {
            let a = canonical::encoded_items(items);
            let b = spelled_items(ordered_items(items));
            assert forall|i: int| 0 <= i < items.len() implies a[i] == b[i] by {
                lemma_spelled(items[i]);
            }
            assert(a =~= b);
            lemma_chain(a);
        },
        JsonModel::Members(rows) => {
            let f = |r: (Seq<char>, JsonModel)| (r.0, spelled(r.1));
            let mine = ordered_rows(rows);
            let pairs = canonical::encoded_members(rows);
            assert forall|i: int| 0 <= i < rows.len() implies pairs[i] == f(mine[i]) by {
                lemma_spelled(rows[i].1);
            }
            assert(pairs =~= mine.map_values(f));
            sorting::lemma_sorted_map(mine, f, row_order(), canonical::member_order());
            let s = sorting::sorted(mine, row_order());
            let t = canonical::member_texts(pairs);
            assert(t =~= spelled_rows(s));
            lemma_chain(t);
        },
        _ => {},
    }
}

// --- reading back ---------------------------------------------------------

proof fn lemma_cancel(p: Seq<char>, a: Seq<char>, b: Seq<char>)
    requires
        p + a == p + b,
    ensures
        a == b,
{
    assert((p + a).skip(p.len() as int) =~= a);
    assert((p + b).skip(p.len() as int) =~= b);
}

/// Whether what follows a value ends it.
spec fn stops(r: Seq<char>) -> bool {
    r.len() == 0 || r[0] == ',' || r[0] == ']' || r[0] == '}'
}

/// Whether a character can stand in a number without an exponent.
spec fn in_plain(c: char) -> bool {
    c == '-' || c == '.' || '0' <= c <= '9'
}

/// Whether a character can stand in a number.
spec fn in_number(c: char) -> bool {
    in_plain(c) || c == 'e' || c == '+'
}

/// Two runs of characters of one class, each followed by something else, are the
/// same run.
proof fn lemma_same_run(
    x: Seq<char>,
    y: Seq<char>,
    a: Seq<char>,
    b: Seq<char>,
    class: spec_fn(char) -> bool,
)
    requires
        x + a == y + b,
        forall|i: int| 0 <= i < x.len() ==> class(#[trigger] x[i]),
        forall|i: int| 0 <= i < y.len() ==> class(#[trigger] y[i]),
        a.len() == 0 || !class(a[0]),
        b.len() == 0 || !class(b[0]),
    ensures
        x == y,
        a == b,
{
    let whole = x + a;
    if x.len() < y.len() {
        assert(whole[x.len() as int] == y[x.len() as int]);
        assert(whole[x.len() as int] == a[0]);
    }
    if y.len() < x.len() {
        assert(whole[y.len() as int] == x[y.len() as int]);
        assert((y + b)[y.len() as int] == b[0]);
    }
    assert(x =~= y) by {
        assert forall|i: int| 0 <= i < x.len() implies x[i] == y[i] by {
            assert(whole[i] == x[i]);
            assert((y + b)[i] == y[i]);
        }
    }
    lemma_cancel(x, a, b);
}

// --- strings ---

proof fn lemma_escaped_front(s: Seq<char>)
    requires
        s.len() > 0,
    ensures
        canonical::escaped(s) == canonical::escape_char(s[0]) + canonical::escaped(s.drop_first()),
    decreases s.len(),
{
    let rest = s.drop_first();
    if s.len() == 1 {
        assert(s.drop_last() =~= Seq::empty());
        assert(rest =~= Seq::empty());
        assert(canonical::escaped(s) =~= canonical::escape_char(s[0]) + canonical::escaped(rest));
    } else {
        lemma_escaped_front(s.drop_last());
        assert(s.drop_last().drop_first() =~= rest.drop_last());
        assert(rest.last() == s.last());
        assert(canonical::escaped(s) =~= canonical::escape_char(s[0]) + canonical::escaped(rest));
    }
}

proof fn lemma_hex(a: int, b: int)
    requires
        0 <= a < 16,
        0 <= b < 16,
        canonical::hex_digit(a) == canonical::hex_digit(b),
    ensures
        a == b,
{
}

proof fn lemma_escape(c: char, d: char, a: Seq<char>, b: Seq<char>)
    requires
        canonical::escape_char(c) + a == canonical::escape_char(d) + b,
    ensures
        c == d,
        a == b,
{
    let x = canonical::escape_char(c);
    let y = canonical::escape_char(d);
    let whole = x + a;
    assert(whole[0] == x[0] && whole[0] == y[0]);
    let n = c as int;
    let k = d as int;
    if x[0] == '\\' {
        assert(whole[1] == x[1]);
        assert((y + b)[1] == y[1]);
        if x[1] == 'u' {
            assert(x.len() == 6 && y.len() == 6);
            assert(whole[4] == x[4] && (y + b)[4] == y[4]);
            assert(whole[5] == x[5] && (y + b)[5] == y[5]);
            lemma_hex(n / 16, k / 16);
            lemma_hex(n % 16, k % 16);
            assert(n == 16 * (n / 16) + n % 16);
            assert(k == 16 * (k / 16) + k % 16);
        }
    }
    assert(n == k);
    lemma_cancel(x, a, b);
}

/// What is left of a string, the closing quote, and what follows.
spec fn closed(s: Seq<char>, a: Seq<char>) -> Seq<char> {
    canonical::escaped(s) + seq!['"'] + a
}

proof fn lemma_closed(s: Seq<char>, a: Seq<char>)
    ensures
        closed(s, a).len() > 0,
        s.len() == 0 <==> closed(s, a)[0] == '"',
        s.len() == 0 ==> closed(s, a) == seq!['"'] + a,
        s.len() > 0 ==> closed(s, a) == canonical::escape_char(s[0]) + closed(s.drop_first(), a),
{
    let all = closed(s, a);
    if s.len() == 0 {
        assert(all =~= seq!['"'] + a);
    } else {
        lemma_escaped_front(s);
        let e = canonical::escape_char(s[0]);
        assert(all =~= e + closed(s.drop_first(), a));
        assert(all[0] == e[0]);
    }
}

proof fn lemma_string(s: Seq<char>, t: Seq<char>, a: Seq<char>, b: Seq<char>)
    requires
        closed(s, a) == closed(t, b),
    ensures
        s == t,
        a == b,
    decreases s.len(),
{
    lemma_closed(s, a);
    lemma_closed(t, b);
    if s.len() == 0 {
        assert(s =~= t);
        lemma_cancel(seq!['"'], a, b);
    } else {
        lemma_escape(s[0], t[0], closed(s.drop_first(), a), closed(t.drop_first(), b));
        lemma_string(s.drop_first(), t.drop_first(), a, b);
        assert(s =~= seq![s[0]] + s.drop_first());
        assert(t =~= seq![t[0]] + t.drop_first());
    }
}

proof fn lemma_quoted(s: Seq<char>, t: Seq<char>, a: Seq<char>, b: Seq<char>)
    requires
        canonical::quoted(s) + a == canonical::quoted(t) + b,
    ensures
        s == t,
        a == b,
{
    let p = closed(s, a);
    let q = closed(t, b);
    assert(canonical::quoted(s) + a =~= seq!['"'] + p);
    assert(canonical::quoted(t) + b =~= seq!['"'] + q);
    lemma_cancel(seq!['"'], p, q);
    lemma_string(s, t, a, b);
}

// --- numbers ---

proof fn lemma_decimal_digits(n: nat)
    ensures
        text::decimal(n).len() > 0,
        forall|i: int|
            0 <= i < text::decimal(n).len() ==> '0' <= #[trigger] text::decimal(n)[i] <= '9',
    decreases n,
{
    if n >= 10 {
        lemma_decimal_digits(n / 10);
    }
}

proof fn lemma_decimal_injective(n: nat, m: nat)
    requires
        text::decimal(n) == text::decimal(m),
    ensures
        n == m,
    decreases n,
{
    let x = text::decimal(n);
    let y = text::decimal(m);
    lemma_decimal_digits(n / 10);
    lemma_decimal_digits(m / 10);
    assert(x.last() == y.last());
    assert(x.last() as int == '0' as int + n % 10);
    assert(y.last() as int == '0' as int + m % 10);
    if n >= 10 && m >= 10 {
        assert(x.drop_last() =~= text::decimal(n / 10));
        assert(y.drop_last() =~= text::decimal(m / 10));
        lemma_decimal_injective(n / 10, m / 10);
    } else if n >= 10 {
        assert(x.len() > 1 && y.len() == 1);
    } else if m >= 10 {
        assert(y.len() > 1 && x.len() == 1);
    }
}

proof fn lemma_places_split(f: nat, places: nat)
    requires
        places > 0,
        f < canonical::ten_to(places),
    ensures
        ({
            let unit = canonical::ten_to((places - 1) as nat);
            &&& unit > 0
            &&& f / unit < 10
            &&& f % unit < unit
            &&& f == unit * (f / unit) + f % unit
        }),
{
    let unit = canonical::ten_to((places - 1) as nat);
    decimal::lemma_ten_to_positive((places - 1) as nat);
    assert(f < 10 * unit);
    assert(f / unit < 10) by (nonlinear_arith)
        requires
            f < 10 * unit,
            unit > 0,
    ;
    assert(f % unit < unit) by (nonlinear_arith)
        requires
            unit > 0,
    ;
    assert(f == unit * (f / unit) + f % unit) by (nonlinear_arith)
        requires
            unit > 0,
    ;
}

proof fn lemma_places_digits(f: nat, places: nat)
    requires
        f < canonical::ten_to(places),
    ensures
        forall|i: int|
            0 <= i < canonical::places_text(f, places).len() ==> '0' <= #[trigger] canonical::places_text(
                f,
                places,
            )[i] <= '9',
    decreases places,
{
    if f != 0 && places != 0 {
        lemma_places_split(f, places);
        let unit = canonical::ten_to((places - 1) as nat);
        lemma_places_digits(f % unit, (places - 1) as nat);
        let rest = canonical::places_text(f % unit, (places - 1) as nat);
        let all = canonical::places_text(f, places);
        assert forall|i: int| 0 <= i < all.len() implies '0' <= #[trigger] all[i] <= '9' by {
            if i > 0 {
                assert(all[i] == rest[i - 1]);
            }
        }
    }
}

proof fn lemma_places_injective(f: nat, g: nat, places: nat)
    requires
        f < canonical::ten_to(places),
        g < canonical::ten_to(places),
        canonical::places_text(f, places) == canonical::places_text(g, places),
    ensures
        f == g,
    decreases places,
{
    let x = canonical::places_text(f, places);
    let y = canonical::places_text(g, places);
    if places == 0 {
        assert(canonical::ten_to(0) == 1);
    } else if f == 0 || g == 0 {
        if f != 0 {
            assert(x.len() > 0);
        }
        if g != 0 {
            assert(y.len() > 0);
        }
    } else {
        lemma_places_split(f, places);
        lemma_places_split(g, places);
        let unit = canonical::ten_to((places - 1) as nat);
        let p = canonical::places_text(f % unit, (places - 1) as nat);
        let q = canonical::places_text(g % unit, (places - 1) as nat);
        let df = seq![text::digit((f / unit) as int)];
        let dg = seq![text::digit((g / unit) as int)];
        assert(x[0] == df[0] && y[0] == dg[0]);
        assert(f / unit == g / unit);
        assert(df =~= dg);
        lemma_cancel(df, p, q);
        lemma_places_injective(f % unit, g % unit, (places - 1) as nat);
    }
}

/// A whole number is spelled as the millionths it is.
proof fn lemma_whole(n: int)
    ensures
        canonical::whole_text(n) == canonical::number_text(n * 1000000),
{
    let m = n * 1000000;
    let size = if m < 0 { (-m) as nat } else { m as nat };
    assert(size % 1000000 == 0);
    assert(size / 1000000 == (if n < 0 { -n } else { n }));
    assert(text::integer_text(n) =~= canonical::millionths_text(m));
}

/// The spelling of a number without its sign.
spec fn unsigned_text(size: nat) -> Seq<char> {
    text::decimal(size / 1000000) + point_text(size % 1000000)
}

spec fn point_text(part: nat) -> Seq<char> {
    if part == 0 {
        Seq::empty()
    } else {
        seq!['.'] + canonical::places_text(part, 6)
    }
}

proof fn lemma_signed(n: int)
    ensures
        n < 0 ==> canonical::millionths_text(n) == seq!['-'] + unsigned_text((-n) as nat),
        n >= 0 ==> canonical::millionths_text(n) == unsigned_text(n as nat),
{
    let size = if n < 0 { (-n) as nat } else { n as nat };
    if n < 0 {
        assert(canonical::millionths_text(n) =~= seq!['-'] + unsigned_text(size));
    } else {
        assert(canonical::millionths_text(n) =~= unsigned_text(size));
    }
}

proof fn lemma_unsigned(size: nat)
    ensures
        unsigned_text(size).len() > 0,
        '0' <= unsigned_text(size)[0] <= '9',
        forall|i: int|
            0 <= i < unsigned_text(size).len() ==> in_plain(#[trigger] unsigned_text(size)[i]),
{
    reveal_with_fuel(canonical::ten_to, 7);
    let whole = text::decimal(size / 1000000);
    let part = size % 1000000;
    lemma_decimal_digits(size / 1000000);
    lemma_places_digits(part, 6);
    let all = unsigned_text(size);
    assert(all[0] == whole[0]);
    assert forall|i: int| 0 <= i < all.len() implies in_plain(#[trigger] all[i]) by {
        if i < whole.len() {
            assert(all[i] == whole[i]);
        } else if i > whole.len() {
            assert(all[i] == canonical::places_text(part, 6)[i - whole.len() - 1]);
        }
    }
}

proof fn lemma_unsigned_injective(a: nat, b: nat)
    requires
        unsigned_text(a) == unsigned_text(b),
    ensures
        a == b,
{
    reveal_with_fuel(canonical::ten_to, 7);
    let x = text::decimal(a / 1000000);
    let y = text::decimal(b / 1000000);
    let p = point_text(a % 1000000);
    let q = point_text(b % 1000000);
    lemma_decimal_digits(a / 1000000);
    lemma_decimal_digits(b / 1000000);
    lemma_same_run(x, y, p, q, |c: char| '0' <= c <= '9');
    lemma_decimal_injective(a / 1000000, b / 1000000);
    if a % 1000000 == 0 || b % 1000000 == 0 {
        assert(p.len() == q.len());
    } else {
        lemma_cancel(
            seq!['.'],
            canonical::places_text(a % 1000000, 6),
            canonical::places_text(b % 1000000, 6),
        );
        lemma_places_injective(a % 1000000, b % 1000000, 6);
    }
}

proof fn lemma_millionths(n: int)
    ensures
        canonical::millionths_text(n).len() > 0,
        forall|i: int|
            0 <= i < canonical::millionths_text(n).len() ==> in_plain(
                #[trigger] canonical::millionths_text(n)[i],
            ),
{
    lemma_signed(n);
    let size = if n < 0 { (-n) as nat } else { n as nat };
    lemma_unsigned(size);
    if n < 0 {
        let all = canonical::millionths_text(n);
        assert forall|i: int| 0 <= i < all.len() implies in_plain(#[trigger] all[i]) by {
            if i > 0 {
                assert(all[i] == unsigned_text(size)[i - 1]);
            }
        }
    }
}

proof fn lemma_millionths_injective(n: int, m: int)
    requires
        canonical::millionths_text(n) == canonical::millionths_text(m),
    ensures
        n == m,
{
    lemma_signed(n);
    lemma_signed(m);
    let a = if n < 0 { (-n) as nat } else { n as nat };
    let b = if m < 0 { (-m) as nat } else { m as nat };
    lemma_unsigned(a);
    lemma_unsigned(b);
    let x = canonical::millionths_text(n);
    let y = canonical::millionths_text(m);
    if n < 0 {
        assert(x[0] == '-');
    } else {
        assert(x[0] == unsigned_text(a)[0]);
    }
    if m < 0 {
        assert(y[0] == '-');
    } else {
        assert(y[0] == unsigned_text(b)[0]);
    }
    assert(n < 0 <==> m < 0);
    if n < 0 {
        lemma_cancel(seq!['-'], unsigned_text(a), unsigned_text(b));
    }
    lemma_unsigned_injective(a, b);
}

/// How many zeros a number ends in.
spec fn zeros_of(n: nat) -> nat
    decreases n,
{
    if n > 0 && n % 10 == 0 {
        zeros_of(n / 10) + 1
    } else {
        0
    }
}

proof fn lemma_significand(n: nat)
    requires
        n > 0,
    ensures
        canonical::significand(n) > 0,
        n == canonical::significand(n) * canonical::ten_to(zeros_of(n)),
    decreases n,
{
    let m = canonical::significand(n);
    if n % 10 == 0 {
        lemma_significand(n / 10);
        let x = canonical::ten_to(zeros_of(n / 10));
        assert(canonical::ten_to(zeros_of(n)) == 10 * x);
        assert(m * (10 * x) == 10 * (m * x)) by (nonlinear_arith);
    } else {
        assert(canonical::ten_to(0) == 1);
        assert(m * 1 == m);
    }
}

/// What stands before the exponent.
spec fn mantissa(size: nat) -> Seq<char> {
    canonical::pointed(text::decimal(canonical::significand(size)))
}

/// The exponent.
spec fn exponent(size: nat) -> nat {
    (text::decimal(size).len() - 7) as nat
}

proof fn lemma_exponent_text(size: nat)
    requires
        size > 0,
    ensures
        canonical::exponent_text(size) == mantissa(size) + (seq!['e', '+'] + text::decimal(
            exponent(size),
        )),
        mantissa(size).len() > 0,
        '0' <= mantissa(size)[0] <= '9',
        forall|i: int|
            0 <= i < mantissa(size).len() ==> in_plain(#[trigger] mantissa(size)[i]),
        forall|i: int|
            0 <= i < canonical::exponent_text(size).len() ==> in_number(
                #[trigger] canonical::exponent_text(size)[i],
            ),
        canonical::exponent_text(size)[0] == mantissa(size)[0],
        mantissa(size).len() < canonical::exponent_text(size).len(),
        canonical::exponent_text(size)[mantissa(size).len() as int] == 'e',
{
    let digits = text::decimal(canonical::significand(size));
    let tail = text::decimal(exponent(size));
    let front = mantissa(size);
    let all = canonical::exponent_text(size);
    lemma_decimal_digits(canonical::significand(size));
    lemma_decimal_digits(exponent(size));
    assert forall|i: int| 0 <= i < front.len() implies in_plain(#[trigger] front[i]) by {
        if digits.len() > 1 && i > 1 {
            assert(front[i] == digits[i - 1]);
        } else if i == 0 {
            assert(front[i] == digits[i]);
        }
    }
    assert(front[0] == digits[0]);
    assert(all =~= front + (seq!['e', '+'] + tail));
    assert forall|i: int| 0 <= i < all.len() implies in_number(#[trigger] all[i]) by {
        if i < front.len() {
            assert(all[i] == front[i]);
        } else if i >= front.len() + 2 {
            assert(all[i] == tail[i - front.len() - 2]);
        }
    }
}

proof fn lemma_pointed_injective(x: Seq<char>, y: Seq<char>)
    requires
        canonical::pointed(x) == canonical::pointed(y),
    ensures
        x == y,
{
    let p = canonical::pointed(x);
    let q = canonical::pointed(y);
    assert(x.len() <= 1 <==> p.len() <= 1);
    assert(y.len() <= 1 <==> q.len() <= 1);
    if x.len() > 1 {
        assert(p.take(1) + p.skip(2) =~= x);
        assert(q.take(1) + q.skip(2) =~= y);
    }
}

proof fn lemma_exponent_injective(a: nat, b: nat)
    requires
        canonical::exponent_text(a) == canonical::exponent_text(b),
        a >= canonical::exponent_from(),
        b >= canonical::exponent_from(),
    ensures
        a == b,
{
    lemma_exponent_text(a);
    lemma_exponent_text(b);
    let x = seq!['e', '+'] + text::decimal(exponent(a));
    let y = seq!['e', '+'] + text::decimal(exponent(b));
    assert(x[0] == 'e' && y[0] == 'e');
    lemma_same_run(mantissa(a), mantissa(b), x, y, |c: char| in_plain(c));
    lemma_cancel(seq!['e', '+'], text::decimal(exponent(a)), text::decimal(exponent(b)));
    lemma_decimal_injective(exponent(a), exponent(b));
    let m = canonical::significand(a);
    lemma_pointed_injective(text::decimal(m), text::decimal(canonical::significand(b)));
    lemma_decimal_injective(m, canonical::significand(b));
    lemma_significand(a);
    lemma_significand(b);
    canonical::lemma_trailing_zeros(m, zeros_of(a));
    canonical::lemma_trailing_zeros(m, zeros_of(b));
    canonical::lemma_long_numbers(a);
    canonical::lemma_long_numbers(b);
}

proof fn lemma_number(n: int)
    ensures
        canonical::number_text(n).len() > 0,
        forall|i: int|
            0 <= i < canonical::number_text(n).len() ==> in_number(
                #[trigger] canonical::number_text(n)[i],
            ),
{
    let size = if n < 0 { (-n) as nat } else { n as nat };
    let all = canonical::number_text(n);
    if size < canonical::exponent_from() {
        lemma_millionths(n);
    } else {
        lemma_exponent_text(size);
        if n < 0 {
            assert forall|i: int| 0 <= i < all.len() implies in_number(#[trigger] all[i]) by {
                if i > 0 {
                    assert(all[i] == canonical::exponent_text(size)[i - 1]);
                }
            }
        }
    }
}

/// A number with an exponent shows it.
proof fn lemma_exponent_shows(n: int) -> (at: int)
    requires
        n >= canonical::exponent_from() || -n >= canonical::exponent_from(),
    ensures
        0 <= at < canonical::number_text(n).len(),
        canonical::number_text(n)[at] == 'e',
{
    let size = if n < 0 { (-n) as nat } else { n as nat };
    lemma_exponent_text(size);
    if n < 0 {
        mantissa(size).len() as int + 1
    } else {
        mantissa(size).len() as int
    }
}

proof fn lemma_number_injective(n: int, m: int)
    requires
        canonical::number_text(n) == canonical::number_text(m),
    ensures
        n == m,
{
    let a = if n < 0 { (-n) as nat } else { n as nat };
    let b = if m < 0 { (-m) as nat } else { m as nat };
    let plain_n = a < canonical::exponent_from();
    let plain_m = b < canonical::exponent_from();
    if plain_n && plain_m {
        lemma_millionths_injective(n, m);
    } else if plain_n {
        lemma_millionths(n);
        let at = lemma_exponent_shows(m);
        assert(in_plain(canonical::millionths_text(n)[at]));
    } else if plain_m {
        lemma_millionths(m);
        let at = lemma_exponent_shows(n);
        assert(in_plain(canonical::millionths_text(m)[at]));
    } else {
        lemma_exponent_text(a);
        lemma_exponent_text(b);
        let x = canonical::number_text(n);
        let y = canonical::number_text(m);
        assert(x[0] == (if n < 0 { '-' } else { mantissa(a)[0] }));
        assert(y[0] == (if m < 0 { '-' } else { mantissa(b)[0] }));
        if n < 0 {
            lemma_cancel(seq!['-'], canonical::exponent_text(a), canonical::exponent_text(b));
        }
        lemma_exponent_injective(a, b);
    }
}

proof fn lemma_number_text(m: JsonModel)
    requires
        number(m) is Some,
    ensures
        spelled(m) == canonical::number_text(number(m)->Some_0),
{
    if let JsonModel::Whole(n) = m {
        lemma_whole(n);
    }
}

// --- values ---------------------------------------------------------------

/// What the text of a value starts with tells what kind of value it is.
proof fn lemma_first(m: JsonModel)
    ensures
        spelled(m).len() > 0,
        m is Null ==> spelled(m)[0] == 'n',
        m is Bool ==> spelled(m)[0] == 't' || spelled(m)[0] == 'f',
        number(m) is Some ==> in_number(spelled(m)[0]),
        m is Text ==> spelled(m)[0] == '"',
        m is List ==> spelled(m)[0] == '[',
        m is Members ==> spelled(m)[0] == '{',
{
    if number(m) is Some {
        lemma_number_text(m);
        lemma_number(number(m)->Some_0);
    }
}

proof fn lemma_chain_stops(parts: Seq<Seq<char>>, i: int, close: char, r: Seq<char>)
    requires
        1 <= i,
        close == ']' || close == '}',
    ensures
        stops(chain(parts, i) + seq![close] + r),
{
    let all = chain(parts, i) + seq![close] + r;
    if i < parts.len() {
        assert(all[0] == ',');
    } else {
        assert(all[0] == close);
    }
}

/// Two values whose texts agree up to where they end say the same.
proof fn lemma_read(a: JsonModel, b: JsonModel, r: Seq<char>, t: Seq<char>)
    requires
        spelled(a) + r == spelled(b) + t,
        stops(r),
        stops(t),
    ensures
        same(a, b),
        r == t,
    decreases a, 0int,
{
    let left = spelled(a) + r;
    let right = spelled(b) + t;
    lemma_first(a);
    lemma_first(b);
    assert(left[0] == spelled(a)[0]);
    assert(right[0] == spelled(b)[0]);
    match (a, b) {
        (JsonModel::Null, JsonModel::Null) => {
            lemma_cancel(spelled(a), r, t);
        },
        (JsonModel::Bool(x), JsonModel::Bool(y)) => {
            lemma_cancel(spelled(a), r, t);
        },
        (JsonModel::Text(x), JsonModel::Text(y)) => {
            lemma_quoted(x, y, r, t);
        },
        (JsonModel::List(x), JsonModel::List(y)) => {
            let p = chain(spelled_items(x), 0) + seq![']'] + r;
            let q = chain(spelled_items(y), 0) + seq![']'] + t;
            assert(left =~= seq!['['] + p);
            assert(right =~= seq!['['] + q);
            lemma_cancel(seq!['['], p, q);
            lemma_read_items(x, y, 0, r, t);
        },
        (JsonModel::Members(x), JsonModel::Members(y)) => {
            let p = chain(spelled_rows(x), 0) + seq!['}'] + r;
            let q = chain(spelled_rows(y), 0) + seq!['}'] + t;
            assert(left =~= seq!['{'] + p);
            assert(right =~= seq!['{'] + q);
            lemma_cancel(seq!['{'], p, q);
            lemma_read_rows(x, y, 0, r, t);
        },
        _ => {
            assert(number(a) is Some && number(b) is Some);
            lemma_number_text(a);
            lemma_number_text(b);
            let n = number(a)->Some_0;
            let m = number(b)->Some_0;
            lemma_number(n);
            lemma_number(m);
            lemma_same_run(
                canonical::number_text(n),
                canonical::number_text(m),
                r,
                t,
                |c: char| in_number(c),
            );
            lemma_number_injective(n, m);
        },
    }
}

proof fn lemma_read_items(
    x: Seq<JsonModel>,
    y: Seq<JsonModel>,
    i: int,
    r: Seq<char>,
    t: Seq<char>,
)
    requires
        0 <= i <= x.len(),
        i <= y.len(),
        chain(spelled_items(x), i) + seq![']'] + r == chain(spelled_items(y), i) + seq![']'] + t,
    ensures
        x.len() == y.len(),
        forall|j: int| i <= j < x.len() ==> same(#[trigger] x[j], y[j]),
        r == t,
    decreases x, x.len() - i,
{
    let px = spelled_items(x);
    let py = spelled_items(y);
    let left = chain(px, i) + seq![']'] + r;
    let right = chain(py, i) + seq![']'] + t;
    if i < x.len() {
        lemma_first(x[i]);
        assert(px[i] == spelled(x[i]));
        assert(left[0] == (if i == 0 { px[0][0] } else { ',' }));
    } else {
        assert(left[0] == ']');
    }
    if i < y.len() {
        lemma_first(y[i]);
        assert(py[i] == spelled(y[i]));
        assert(right[0] == (if i == 0 { py[0][0] } else { ',' }));
    } else {
        assert(right[0] == ']');
    }
    if i < x.len() && i < y.len() {
        let p = chain(px, i + 1) + seq![']'] + r;
        let q = chain(py, i + 1) + seq![']'] + t;
        lemma_chain_stops(px, i + 1, ']', r);
        lemma_chain_stops(py, i + 1, ']', t);
        if i == 0 {
            assert(left =~= px[i] + p);
            assert(right =~= py[i] + q);
        } else {
            assert(left =~= seq![','] + (px[i] + p));
            assert(right =~= seq![','] + (py[i] + q));
            lemma_cancel(seq![','], px[i] + p, py[i] + q);
        }
        lemma_read(x[i], y[i], p, q);
        lemma_read_items(x, y, i + 1, r, t);
    } else {
        assert(left =~= seq![']'] + r);
        assert(right =~= seq![']'] + t);
        lemma_cancel(seq![']'], r, t);
    }
}

proof fn lemma_read_rows(
    x: Seq<(Seq<char>, JsonModel)>,
    y: Seq<(Seq<char>, JsonModel)>,
    i: int,
    r: Seq<char>,
    t: Seq<char>,
)
    requires
        0 <= i <= x.len(),
        i <= y.len(),
        chain(spelled_rows(x), i) + seq!['}'] + r == chain(spelled_rows(y), i) + seq!['}'] + t,
    ensures
        x.len() == y.len(),
        forall|j: int| i <= j < x.len() ==> (#[trigger] x[j]).0 == y[j].0 && same(x[j].1, y[j].1),
        r == t,
    decreases x, x.len() - i,
{
    let px = spelled_rows(x);
    let py = spelled_rows(y);
    let left = chain(px, i) + seq!['}'] + r;
    let right = chain(py, i) + seq!['}'] + t;
    if i < x.len() {
        assert(px[i] == canonical::quoted(x[i].0) + seq![':'] + spelled(x[i].1));
        assert(px[i][0] == '"');
        assert(left[0] == (if i == 0 { '"' } else { ',' }));
    } else {
        assert(left[0] == '}');
    }
    if i < y.len() {
        assert(py[i] == canonical::quoted(y[i].0) + seq![':'] + spelled(y[i].1));
        assert(py[i][0] == '"');
        assert(right[0] == (if i == 0 { '"' } else { ',' }));
    } else {
        assert(right[0] == '}');
    }
    if i < x.len() && i < y.len() {
        let p = chain(px, i + 1) + seq!['}'] + r;
        let q = chain(py, i + 1) + seq!['}'] + t;
        lemma_chain_stops(px, i + 1, '}', r);
        lemma_chain_stops(py, i + 1, '}', t);
        if i == 0 {
            assert(left =~= px[i] + p);
            assert(right =~= py[i] + q);
        } else {
            assert(left =~= seq![','] + (px[i] + p));
            assert(right =~= seq![','] + (py[i] + q));
            lemma_cancel(seq![','], px[i] + p, py[i] + q);
        }
        let u = spelled(x[i].1) + p;
        let v = spelled(y[i].1) + q;
        assert(px[i] + p =~= canonical::quoted(x[i].0) + (seq![':'] + u));
        assert(py[i] + q =~= canonical::quoted(y[i].0) + (seq![':'] + v));
        lemma_quoted(x[i].0, y[i].0, seq![':'] + u, seq![':'] + v);
        lemma_cancel(seq![':'], u, v);
        lemma_read(x[i].1, y[i].1, p, q);
        lemma_read_rows(x, y, i + 1, r, t);
    } else {
        assert(left =~= seq!['}'] + r);
        assert(right =~= seq!['}'] + t);
        lemma_cancel(seq!['}'], r, t);
    }
}

proof fn lemma_same_spelling(a: JsonModel, b: JsonModel)
    requires
        same(a, b),
    ensures
        spelled(a) == spelled(b),
    decreases a,
{
    match (a, b) {
        (JsonModel::List(x), JsonModel::List(y)) => {
            assert forall|i: int| 0 <= i < x.len() implies spelled_items(x)[i] == spelled_items(
                y,
            )[i] by {
                assert(same(x[i], y[i]));
                lemma_same_spelling(x[i], y[i]);
            }
            assert(spelled_items(x) =~= spelled_items(y));
        },
        (JsonModel::Members(x), JsonModel::Members(y)) => {
            assert forall|i: int| 0 <= i < x.len() implies spelled_rows(x)[i] == spelled_rows(
                y,
            )[i] by {
                assert(x[i].0 == y[i].0 && same(x[i].1, y[i].1));
                lemma_same_spelling(x[i].1, y[i].1);
            }
            assert(spelled_rows(x) =~= spelled_rows(y));
        },
        _ => {
            if number(a) is Some {
                lemma_number_text(a);
                lemma_number_text(b);
            }
        },
    }
}

// --- laws -----------------------------------------------------------------

/// Two values have one canonical text exactly when they say the same, whatever
/// order the members of their objects were written in. The text loses nothing,
/// and adds nothing.
pub proof fn lemma_canonical_text_has_one_reading(a: JsonModel, b: JsonModel)
    ensures
        canonical::encode(a) == canonical::encode(b) <==> same(ordered(a), ordered(b)),
{
    lemma_spelled(a);
    lemma_spelled(b);
    let none = Seq::<char>::empty();
    if canonical::encode(a) == canonical::encode(b) {
        assert(spelled(ordered(a)) + none == spelled(ordered(b)) + none);
        lemma_read(ordered(a), ordered(b), none, none);
    }
    if same(ordered(a), ordered(b)) {
        lemma_same_spelling(ordered(a), ordered(b));
    }
}

/// Two objects with the same keys and one canonical text have, key for key,
/// values with one canonical text.
pub proof fn lemma_members_bind(
    x: Seq<(Seq<char>, JsonModel)>,
    y: Seq<(Seq<char>, JsonModel)>,
    i: int,
)
    requires
        x.len() == y.len(),
        forall|k: int| 0 <= k < x.len() ==> (#[trigger] x[k]).0 == y[k].0,
        canonical::encode(JsonModel::Members(x)) == canonical::encode(JsonModel::Members(y)),
        0 <= i < x.len(),
    ensures
        canonical::encode(x[i].1) == canonical::encode(y[i].1),
{
    broadcast use vstd::seq_lib::group_to_multiset_ensures;

    lemma_canonical_text_has_one_reading(JsonModel::Members(x), JsonModel::Members(y));
    let both = Seq::new(x.len(), |k: int| (x[k].0, ordered(x[k].1), ordered(y[k].1)));
    let first = |m: (Seq<char>, JsonModel, JsonModel)| (m.0, m.1);
    let second = |m: (Seq<char>, JsonModel, JsonModel)| (m.0, m.2);
    let lt = |a: (Seq<char>, JsonModel, JsonModel), b: (Seq<char>, JsonModel, JsonModel)|
        canonical::key_less(a.0, b.0);
    sorting::lemma_sorted_map(both, first, lt, row_order());
    sorting::lemma_sorted_map(both, second, lt, row_order());
    assert(ordered_rows(x) =~= both.map_values(first));
    assert(ordered_rows(y) =~= both.map_values(second));
    let s = sorting::sorted(both, lt);
    sorting::lemma_sorted_keeps_items(both, lt);
    assert(both.contains(both[i]));
    assert(s.to_multiset().count(both[i]) > 0);
    assert(s.contains(both[i]));
    let k = choose|k: int| 0 <= k < s.len() && s[k] == both[i];
    let p = sorting::sorted(ordered_rows(x), row_order());
    let q = sorting::sorted(ordered_rows(y), row_order());
    assert(p[k] == first(s[k]) && q[k] == second(s[k]));
    assert(p[k].0 == q[k].0 && same(p[k].1, q[k].1));
    lemma_canonical_text_has_one_reading(x[i].1, y[i].1);
}

/// Two strings with one canonical text are one string.
pub proof fn lemma_strings_bind(s: Seq<char>, t: Seq<char>)
    requires
        canonical::encode(JsonModel::Text(s)) == canonical::encode(JsonModel::Text(t)),
    ensures
        s == t,
{
    lemma_canonical_text_has_one_reading(JsonModel::Text(s), JsonModel::Text(t));
}

} // verus!
