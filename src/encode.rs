//! Turning raw text fields into statement values: typed parameters for bulk
//! statements and quoted literals for single-record statements.
use vstd::prelude::*;
use vstd::std_specs::vec::axiom_vec_index_decreases;
use crate::text::{push_char, chars_of, string_of, int_digits, push_int_digits};

verus! {

/// A character that is a decimal digit.
pub open spec fn is_digit(c: char) -> bool {
    '0' <= c && c <= '9'
}

pub open spec fn all_digits(s: Seq<char>) -> bool {
    forall|i: int| 0 <= i < s.len() ==> is_digit(#[trigger] s[i])
}

/// The value of a run of decimal digits.
pub open spec fn digits_value(s: Seq<char>) -> nat
    decreases s.len(),
{
    if s.len() == 0 {
        0
    } else {
        digits_value(s.drop_last()) * 10 + (s.last() as nat - '0' as nat) as nat
    }
}

/// The integer that a text of the form `[+-]?[0-9]+` denotes.
pub open spec fn int_of_text(s: Seq<char>) -> Option<int> {
    if s.len() >= 2 && (s[0] == '-' || s[0] == '+') && all_digits(s.skip(1)) {
        if s[0] == '-' {
            Some(-(digits_value(s.skip(1)) as int))
        } else {
            Some(digits_value(s.skip(1)) as int)
        }
    } else if s.len() >= 1 && all_digits(s) {
        Some(digits_value(s) as int)
    } else {
        None
    }
}

/// The 64-bit integer that a text denotes, when it has integer form and the
/// value fits.
pub open spec fn i64_of_text(s: Seq<char>) -> Option<i64> {
    match int_of_text(s) {
        Some(v) => if i64::MIN <= v <= i64::MAX {
            Some(v as i64)
        } else {
            None
        },
        None => None,
    }
}

proof fn lemma_digits_push(t: Seq<char>, c: char)
    ensures
        digits_value(t.push(c)) == digits_value(t) * 10 + (c as nat - '0' as nat) as nat,
{
    assert(t.push(c).drop_last() == t);
}

/// Reads a decimal integer in the range of `i64`.
pub fn parse_i64(s: &Vec<char>) -> (r: Option<i64>)
    ensures
        r == i64_of_text(s@),
{
    let n = s.len();
    if n == 0 {
        return None;
    }
    let mut start: usize = 0;
    let mut neg = false;
    if s[0] == '-' || s[0] == '+' {
        neg = s[0] == '-';
        start = 1;
        if n == 1 {
            return None;
        }
    }
    let limit: u64 = if neg { 9223372036854775808u64 } else { 9223372036854775807u64 };
    let mut acc: u64 = 0;
    let mut over = false;
    let mut i: usize = start;
    while i < n
        invariant
            start <= i <= n,
            n == s.len(),
            start == 0 || start == 1,
            start == 1 <==> (s@[0] == '-' || s@[0] == '+'),
            neg <==> (start == 1 && s@[0] == '-'),
            limit == (if neg { 9223372036854775808u64 } else { 9223372036854775807u64 }),
            all_digits(s@.subrange(start as int, i as int)),
            !over ==> acc == digits_value(s@.subrange(start as int, i as int)) && acc <= limit,
            over ==> digits_value(s@.subrange(start as int, i as int)) > limit,
        decreases n - i,
    {
        let c = s[i];
        if !('0' <= c && c <= '9') {
            assert(!all_digits(s@.subrange(start as int, n as int))) by {
                assert(s@.subrange(start as int, n as int)[i - start] == c);
            }
            if start == 0 {
                assert(s@.subrange(0, n as int) == s@);
            }
            return None;
        }
        let d: u64 = (c as u32 - '0' as u32) as u64;
        let ghost pre = s@.subrange(start as int, i as int);
        assert(s@.subrange(start as int, i + 1) == pre.push(c));
        proof {
            lemma_digits_push(pre, c);
        }
        if !over {
            if acc > (limit - d) / 10 {
                over = true;
                assert(acc * 10 + d > limit) by (nonlinear_arith)
                    requires
                        acc > (limit - d) / 10,
                        d <= 9,
                        limit >= 9,
                ;
            } else {
                assert(acc * 10 + d <= limit) by (nonlinear_arith)
                    requires
                        acc <= (limit - d) / 10,
                        d <= 9,
                        limit >= 9,
                ;
                acc = acc * 10 + d;
            }
        } else {
            assert(digits_value(pre) * 10 + d >= digits_value(pre)) by (nonlinear_arith);
        }
        i += 1;
    }
    if start == 0 {
        assert(s@.subrange(0, n as int) == s@);
    } else {
        assert(s@.subrange(1, n as int) == s@.skip(1));
    }
    if over {
        None
    } else if neg {
        Some((0i128 - acc as i128) as i64)
    } else {
        Some(acc as i64)
    }
}

/// Where a scan of a decimal text stands after some prefix.
#[derive(Clone, Copy, PartialEq, Eq, Structural)]
pub enum NumPhase {
    Start,
    Sign,
    Whole,
    Point,
    Fraction,
    ExpMark,
    ExpSign,
    Exponent,
    Rejected,
}

/// The scan state: the phase and how many mantissa and exponent digits were
/// seen, each counted up to a cap.
#[derive(Clone, Copy, PartialEq, Eq, Structural)]
pub struct NumScan {
    pub phase: NumPhase,
    pub mantissa_digits: u8,
    pub exponent_digits: u8,
}

/// Most significant digits that a 64-bit float carries through a decimal
/// round trip.
pub const MAX_FLOAT_DIGITS: u8 = 15;

/// Largest number of exponent digits accepted in a float text.
pub const MAX_EXPONENT_DIGITS: u8 = 2;

pub open spec fn bump(n: u8) -> u8 {
    if n < 100 { (n + 1) as u8 } else { n }
}

/// One step of the scan of `[+-]?digits[.digits]?([eE][+-]?digits)?`.
pub open spec fn num_step(st: NumScan, c: char) -> NumScan {
    let m = st.mantissa_digits;
    let e = st.exponent_digits;
    let digit = is_digit(c);
    let sign = c == '+' || c == '-';
    let mark = c == 'e' || c == 'E';
    let go = |p: NumPhase| NumScan { phase: p, mantissa_digits: m, exponent_digits: e };
    let rejected = go(NumPhase::Rejected);
    match st.phase {
        NumPhase::Start => if sign { go(NumPhase::Sign) } else if digit {
            NumScan { phase: NumPhase::Whole, mantissa_digits: bump(m), exponent_digits: e }
        } else if c == '.' { go(NumPhase::Point) } else { rejected },
        NumPhase::Sign => if digit {
            NumScan { phase: NumPhase::Whole, mantissa_digits: bump(m), exponent_digits: e }
        } else if c == '.' { go(NumPhase::Point) } else { rejected },
        NumPhase::Whole => if digit {
            NumScan { phase: NumPhase::Whole, mantissa_digits: bump(m), exponent_digits: e }
        } else if c == '.' { go(NumPhase::Point) } else if mark { go(NumPhase::ExpMark) } else { rejected },
        NumPhase::Point => if digit {
            NumScan { phase: NumPhase::Fraction, mantissa_digits: bump(m), exponent_digits: e }
        } else if mark && m > 0 { go(NumPhase::ExpMark) } else { rejected },
        NumPhase::Fraction => if digit {
            NumScan { phase: NumPhase::Fraction, mantissa_digits: bump(m), exponent_digits: e }
        } else if mark { go(NumPhase::ExpMark) } else { rejected },
        NumPhase::ExpMark => if sign { go(NumPhase::ExpSign) } else if digit {
            NumScan { phase: NumPhase::Exponent, mantissa_digits: m, exponent_digits: bump(e) }
        } else { rejected },
        NumPhase::ExpSign | NumPhase::Exponent => if digit {
            NumScan { phase: NumPhase::Exponent, mantissa_digits: m, exponent_digits: bump(e) }
        } else { rejected },
        NumPhase::Rejected => rejected,
    }
}

pub open spec fn num_start() -> NumScan {
    NumScan { phase: NumPhase::Start, mantissa_digits: 0, exponent_digits: 0 }
}

/// The scan state after a whole text.
pub open spec fn num_scan(s: Seq<char>) -> NumScan
    decreases s.len(),
{
    if s.len() == 0 {
        num_start()
    } else {
        num_step(num_scan(s.drop_last()), s.last())
    }
}

/// A decimal float text that a 64-bit float holds without loss: a mantissa
/// of one to fifteen digits with an optional point, and an optional exponent
/// of one or two digits. Any such value converts to the nearest float and
/// back to the same fifteen significant digits.
pub open spec fn is_exact_float_text(s: Seq<char>) -> bool {
    let st = num_scan(s);
    &&& (st.phase == NumPhase::Whole || st.phase == NumPhase::Point
        || st.phase == NumPhase::Fraction || st.phase == NumPhase::Exponent)
    &&& 1 <= st.mantissa_digits <= MAX_FLOAT_DIGITS
    &&& st.exponent_digits <= MAX_EXPONENT_DIGITS
}

fn bump_exec(n: u8) -> (r: u8)
    ensures
        r == bump(n),
{
    if n < 100 { n + 1 } else { n }
}

fn num_step_exec(st: NumScan, c: char) -> (r: NumScan)
    ensures
        r == num_step(st, c),
{
    let m = st.mantissa_digits;
    let e = st.exponent_digits;
    let digit = '0' <= c && c <= '9';
    let sign = c == '+' || c == '-';
    let mark = c == 'e' || c == 'E';
    let rejected = NumScan { phase: NumPhase::Rejected, mantissa_digits: m, exponent_digits: e };
    let whole = NumScan { phase: NumPhase::Whole, mantissa_digits: bump_exec(m), exponent_digits: e };
    let point = NumScan { phase: NumPhase::Point, mantissa_digits: m, exponent_digits: e };
    let exp_mark = NumScan { phase: NumPhase::ExpMark, mantissa_digits: m, exponent_digits: e };
    let fraction = NumScan { phase: NumPhase::Fraction, mantissa_digits: bump_exec(m), exponent_digits: e };
    let exponent = NumScan { phase: NumPhase::Exponent, mantissa_digits: m, exponent_digits: bump_exec(e) };
    match st.phase {
        NumPhase::Start => if sign {
            NumScan { phase: NumPhase::Sign, mantissa_digits: m, exponent_digits: e }
        } else if digit { whole } else if c == '.' { point } else { rejected },
        NumPhase::Sign => if digit { whole } else if c == '.' { point } else { rejected },
        NumPhase::Whole => if digit { whole } else if c == '.' { point } else if mark { exp_mark } else { rejected },
        NumPhase::Point => if digit { fraction } else if mark && m > 0 { exp_mark } else { rejected },
        NumPhase::Fraction => if digit { fraction } else if mark { exp_mark } else { rejected },
        NumPhase::ExpMark => if sign {
            NumScan { phase: NumPhase::ExpSign, mantissa_digits: m, exponent_digits: e }
        } else if digit { exponent } else { rejected },
        NumPhase::ExpSign | NumPhase::Exponent => if digit { exponent } else { rejected },
        NumPhase::Rejected => rejected,
    }
}

/// Whether a text is a float that a 64-bit float carries exactly.
pub fn exact_float_text(s: &Vec<char>) -> (r: bool)
    ensures
        r == is_exact_float_text(s@),
{
    let mut st = NumScan { phase: NumPhase::Start, mantissa_digits: 0, exponent_digits: 0 };
    for i in 0..s.len()
        invariant
            st == num_scan(s@.take(i as int)),
    {
        assert(s@.take(i + 1).drop_last() == s@.take(i as int));
        st = num_step_exec(st, s[i]);
    }
    assert(s@.take(s.len() as int) == s@);
    (st.phase == NumPhase::Whole || st.phase == NumPhase::Point || st.phase == NumPhase::Fraction
        || st.phase == NumPhase::Exponent) && 1 <= st.mantissa_digits && st.mantissa_digits
        <= MAX_FLOAT_DIGITS && st.exponent_digits <= MAX_EXPONENT_DIGITS
}

/// A statement parameter value, in the shape the store's parameter syntax
/// accepts. A float keeps its decimal text.
#[derive(Debug)]
pub enum ParamValue {
    Null,
    Bool(bool),
    Int(i64),
    Float(String),
    Str(String),
    Array(Vec<ParamValue>),
    Object(Vec<(String, ParamValue)>),
}

/// How a raw field encodes as a parameter: null when empty, then an integer
/// when it reads as one within 64 bits, then a float when it is exact, else a
/// string.
pub open spec fn encodes_param(r: ParamValue, s: Seq<char>) -> bool {
    if s.len() == 0 {
        r is Null
    } else if i64_of_text(s) is Some {
        r == ParamValue::Int(i64_of_text(s)->0)
    } else if is_exact_float_text(s) {
        r is Float && r->Float_0@ == s
    } else {
        r is Str && r->Str_0@ == s
    }
}

/// How an identifier field encodes: as any field, but an empty identifier
/// stays an empty string instead of becoming null.
pub open spec fn encodes_id_param(r: ParamValue, s: Seq<char>) -> bool {
    if s.len() == 0 {
        r is Str && r->Str_0@ == s
    } else {
        encodes_param(r, s)
    }
}

/// Encodes a raw field as a typed parameter without losing precision.
pub fn parse_value_to_json(value: &str) -> (r: ParamValue)
    ensures
        encodes_param(r, value@),
{
    let cs = chars_of(value);
    if cs.len() == 0 {
        return ParamValue::Null;
    }
    match parse_i64(&cs) {
        Some(n) => ParamValue::Int(n),
        None => if exact_float_text(&cs) {
            ParamValue::Float(string_of(&cs))
        } else {
            ParamValue::Str(string_of(&cs))
        },
    }
}

/// Encodes an identifier field as a typed parameter.
pub fn parse_id_to_json(value: &str) -> (r: ParamValue)
    ensures
        encodes_id_param(r, value@),
{
    if value.is_empty() {
        assert(value@ == Seq::<char>::empty());
        ParamValue::Str(String::new())
    } else {
        parse_value_to_json(value)
    }
}

/// A character as it stands inside a quoted literal.
pub open spec fn escaped_char(c: char) -> Seq<char> {
    if c == '\\' || c == '\'' {
        seq!['\\', c]
    } else {
        seq![c]
    }
}

/// A text with each quote and backslash preceded by a backslash.
pub open spec fn escaped(s: Seq<char>) -> Seq<char>
    decreases s.len(),
{
    if s.len() == 0 {
        Seq::empty()
    } else {
        escaped(s.drop_last()) + escaped_char(s.last())
    }
}

/// A text as a single-quoted string literal.
pub open spec fn quoted(s: Seq<char>) -> Seq<char> {
    seq!['\''] + escaped(s) + seq!['\'']
}

/// Appends the quoted literal of a text.
pub fn push_quoted(out: &mut String, s: &str)
    ensures
        final(out)@ == old(out)@ + quoted(s@),
{
    let cs = chars_of(s);
    push_char(out, '\'');
    for i in 0..cs.len()
        invariant
            cs@ == s@,
            out@ == old(out)@ + seq!['\''] + escaped(cs@.take(i as int)),
    {
        let c = cs[i];
        assert(cs@.take(i + 1).drop_last() == cs@.take(i as int));
        if c == '\\' || c == '\'' {
            push_char(out, '\\');
        }
        push_char(out, c);
    }
    assert(cs@.take(cs.len() as int) == cs@);
    push_char(out, '\'');
}

/// The literal for a field in a single-record statement: null when empty,
/// else the quoted text.
pub open spec fn property_literal(s: Seq<char>) -> Seq<char> {
    if s.len() == 0 {
        "null"@
    } else {
        quoted(s)
    }
}

/// Encodes a raw field as an inline literal.
pub fn parse_value_for_property(value: &str) -> (r: String)
    ensures
        r@ == property_literal(value@),
{
    if value.is_empty() {
        String::from_str("null")
    } else {
        let mut out = String::new();
        push_quoted(&mut out, value);
        out
    }
}

/// Encodes an identifier field as an inline literal; an empty identifier is
/// the empty quoted string.
pub fn parse_id_value(value: &str) -> (r: String)
    ensures
        r@ == quoted(value@),
{
    let mut out = String::new();
    push_quoted(&mut out, value);
    out
}

/// Separator between the items of a list or map literal.
pub open spec fn comma() -> Seq<char> {
    seq![',', ' ']
}

/// The literal of a parameter value in the store's query syntax: null, a
/// boolean, a number as its digits, a quoted string, a bracketed list or a
/// braced map with bare keys.
pub open spec fn literal_of(v: ParamValue) -> Seq<char>
    decreases v,
{
    match v {
        ParamValue::Null => "null"@,
        ParamValue::Bool(b) => if b {
            "true"@
        } else {
            "false"@
        },
        ParamValue::Int(n) => int_digits(n as int),
        ParamValue::Float(t) => t@,
        ParamValue::Str(t) => quoted(t@),
        ParamValue::Array(items) => seq!['['] + items_literal(items@) + seq![']'],
        ParamValue::Object(entries) => seq!['{'] + entries_literal(entries@) + seq!['}'],
    }
}

/// The literals of a list's items, separated by commas.
pub open spec fn items_literal(vs: Seq<ParamValue>) -> Seq<char>
    decreases vs,
{
    if vs.len() == 0 {
        Seq::empty()
    } else if vs.len() == 1 {
        literal_of(vs[0])
    } else {
        items_literal(vs.drop_last()) + comma() + literal_of(vs.last())
    }
}

/// The `key: literal` entries of a map, separated by commas.
pub open spec fn entries_literal(es: Seq<(String, ParamValue)>) -> Seq<char>
    decreases es,
{
    if es.len() == 0 {
        Seq::empty()
    } else if es.len() == 1 {
        es[0].0@ + seq![':', ' '] + literal_of(es[0].1)
    } else {
        entries_literal(es.drop_last()) + comma() + es.last().0@ + seq![':', ' '] + literal_of(es.last().1)
    }
}

/// Appends the literal of a parameter value.
pub fn push_literal(out: &mut String, v: &ParamValue)
    ensures
        final(out)@ == old(out)@ + literal_of(*v),
    decreases v,
{
    match v {
        ParamValue::Null => out.append("null"),
        ParamValue::Bool(b) => if *b {
            out.append("true")
        } else {
            out.append("false")
        },
        ParamValue::Int(n) => push_int_digits(out, *n),
        ParamValue::Float(t) => out.append(t.as_str()),
        ParamValue::Str(t) => push_quoted(out, t.as_str()),
        ParamValue::Array(items) => {
            push_char(out, '[');
            push_items(out, items);
            push_char(out, ']');
        },
        ParamValue::Object(entries) => {
            push_char(out, '{');
            push_entries(out, entries);
            push_char(out, '}');
        },
    }
}

pub fn push_items(out: &mut String, items: &Vec<ParamValue>)
    ensures
        final(out)@ == old(out)@ + items_literal(items@),
    decreases items,
{
    let ghost start = out@;
    for i in 0..items.len()
        invariant
            out@ == start + items_literal(items@.take(i as int)),
    {
        proof {
            reveal_strlit(", ");
            axiom_vec_index_decreases(*items, i as int);
        }
        assert(", "@ =~= comma());
        assert(items@.take(i + 1).drop_last() == items@.take(i as int));
        assert(items@.take(i + 1).last() == items@[i as int]);
        assert(items@.take(i + 1)[0] == items@[0]);
        if i > 0 {
            out.append(", ");
        }
        push_literal(out, &items[i]);
    }
    assert(items@.take(items.len() as int) == items@);
}

fn push_entries(out: &mut String, entries: &Vec<(String, ParamValue)>)
    ensures
        final(out)@ == old(out)@ + entries_literal(entries@),
    decreases entries,
{
    let ghost start = out@;
    for i in 0..entries.len()
        invariant
            out@ == start + entries_literal(entries@.take(i as int)),
    {
        proof {
            reveal_strlit(", ");
            reveal_strlit(": ");
            axiom_vec_index_decreases(*entries, i as int);
        }
        assert(", "@ =~= comma());
        assert(": "@ =~= seq![':', ' ']);
        assert(entries@.take(i + 1).drop_last() == entries@.take(i as int));
        assert(entries@.take(i + 1).last() == entries@[i as int]);
        assert(entries@.take(i + 1)[0] == entries@[0]);
        if i > 0 {
            out.append(", ");
        }
        out.append(entries[i].0.as_str());
        out.append(": ");
        push_literal(out, &entries[i].1);
    }
    assert(entries@.take(entries.len() as int) == entries@);
}

/// The literal of a parameter value in the store's query syntax.
pub fn json_to_cypher_literal(v: &ParamValue) -> (r: String)
    ensures
        r@ == literal_of(*v),
{
    let mut out = String::new();
    push_literal(&mut out, v);
    out
}

/// Ten to the power `n`.
pub open spec fn pow10(n: nat) -> nat
    decreases n,
{
    if n == 0 {
        1
    } else {
        10 * pow10((n - 1) as nat)
    }
}

proof fn lemma_digits_below_pow10(s: Seq<char>)
    requires
        all_digits(s),
    ensures
        digits_value(s) < pow10(s.len()),
    decreases s.len(),
{
    if s.len() > 0 {
        let t = s.drop_last();
        assert(all_digits(t)) by {
            assert forall|i: int| 0 <= i < t.len() implies is_digit(#[trigger] t[i]) by {
                assert(t[i] == s[i]);
            }
        }
        lemma_digits_below_pow10(t);
        assert(is_digit(s[s.len() - 1]));
        let d = (s.last() as nat - '0' as nat) as nat;
        assert(d <= 9);
        let a = digits_value(t);
        let b = pow10(t.len());
        assert(a * 10 + d < 10 * b) by (nonlinear_arith)
            requires
                a < b,
                d <= 9,
        ;
    }
}

proof fn lemma_pow10_monotone(m: nat, n: nat)
    requires
        m <= n,
    ensures
        pow10(m) <= pow10(n),
    decreases n,
{
    if m < n {
        lemma_pow10_monotone(m, (n - 1) as nat);
    }
}

proof fn lemma_scan_of_digits(s: Seq<char>)
    requires
        all_digits(s),
        s.len() > 0,
    ensures
        num_scan(s).phase == NumPhase::Whole,
        num_scan(s).mantissa_digits == if s.len() < 100 { s.len() as u8 } else { 100u8 },
    decreases s.len(),
{
    let t = s.drop_last();
    assert(all_digits(t)) by {
        assert forall|i: int| 0 <= i < t.len() implies is_digit(#[trigger] t[i]) by {
            assert(t[i] == s[i]);
        }
    }
    assert(is_digit(s[s.len() - 1]));
    if t.len() > 0 {
        lemma_scan_of_digits(t);
    }
}

/// A run of digits whose value passes the 64-bit range is encoded as a
/// string, never as a truncated number, and that string gives back the
/// text digit for digit.
pub proof fn lemma_large_integer_stays_text(s: Seq<char>, r: ParamValue)
    requires
        s.len() > 0,
        all_digits(s),
        digits_value(s) > i64::MAX,
        encodes_param(r, s),
    ensures
        r is Str,
        r->Str_0@ == s,
{
    lemma_digits_below_pow10(s);
    if s.len() <= 18 {
        lemma_pow10_monotone(s.len(), 18);
        reveal_with_fuel(pow10, 19);
        assert(pow10(18) == 1000000000000000000nat);
    }
    lemma_scan_of_digits(s);
    assert(!(s.len() >= 2 && (s[0] == '-' || s[0] == '+') && all_digits(s.skip(1)))) by {
        assert(is_digit(s[0]));
    }
}

/// How a single-record statement writes a literal back: `null`, or the
/// text inside the quotes with each escape undone.
pub open spec fn unescaped(t: Seq<char>) -> Seq<char>
    decreases t.len(),
{
    if t.len() == 0 {
        Seq::empty()
    } else if t[0] == '\\' && t.len() >= 2 {
        seq![t[1]] + unescaped(t.skip(2))
    } else {
        seq![t[0]] + unescaped(t.skip(1))
    }
}

proof fn lemma_escaped_front(s: Seq<char>)
    requires
        s.len() > 0,
    ensures
        escaped(s) == escaped_char(s[0]) + escaped(s.skip(1)),
    decreases s.len(),
{
    if s.len() == 1 {
        assert(s.drop_last() =~= Seq::<char>::empty());
        assert(s.skip(1) =~= Seq::<char>::empty());
        assert(escaped(s) =~= escaped_char(s[0]));
    } else {
        lemma_escaped_front(s.drop_last());
        assert(s.drop_last()[0] == s[0]);
        assert(s.drop_last().skip(1) =~= s.skip(1).drop_last());
        assert(s.skip(1).last() == s.last());
        assert(escaped(s) =~= escaped_char(s[0]) + escaped(s.skip(1)));
    }
}

/// Undoing the escapes of an escaped text gives the text back.
pub proof fn lemma_unescape_escaped(s: Seq<char>)
    ensures
        unescaped(escaped(s)) == s,
    decreases s.len(),
{
    if s.len() == 0 {
        assert(escaped(s) =~= Seq::<char>::empty());
    } else {
        lemma_escaped_front(s);
        lemma_unescape_escaped(s.skip(1));
        let e = escaped(s);
        let c = s[0];
        if c == '\\' || c == '\'' {
            assert(e[0] == '\\' && e[1] == c);
            assert(e.skip(2) =~= escaped(s.skip(1)));
        } else {
            assert(e[0] == c);
            assert(e.skip(1) =~= escaped(s.skip(1)));
        }
        assert(s =~= seq![c] + s.skip(1));
    }
}

/// A value as the store holds it after a write.
pub enum StoredValue {
    Null,
    Int(int),
    Float(Seq<char>),
    Text(Seq<char>),
}

/// What a parameter value stores.
pub open spec fn param_meaning(v: ParamValue) -> StoredValue {
    match v {
        ParamValue::Int(n) => StoredValue::Int(n as int),
        ParamValue::Float(t) => StoredValue::Float(t@),
        ParamValue::Str(t) => StoredValue::Text(t@),
        _ => StoredValue::Null,
    }
}

/// What an inline literal stores: `null`, or the quoted text.
pub open spec fn literal_meaning(t: Seq<char>) -> StoredValue {
    if t.len() >= 2 && t[0] == '\'' && t.last() == '\'' {
        StoredValue::Text(unescaped(t.subrange(1, t.len() - 1)))
    } else {
        StoredValue::Null
    }
}

/// A quoted literal stores exactly the text it quotes.
pub proof fn lemma_quoted_meaning(s: Seq<char>)
    ensures
        literal_meaning(quoted(s)) == StoredValue::Text(s),
{
    let q = quoted(s);
    assert(q.subrange(1, q.len() - 1) =~= escaped(s));
    lemma_unescape_escaped(s);
}

/// A text that both paths store as text: empty, or neither an integer in
/// range nor an exact float.
pub open spec fn is_plain_text(s: Seq<char>) -> bool {
    s.len() == 0 || (i64_of_text(s) is None && !is_exact_float_text(s))
}

} // verus!
