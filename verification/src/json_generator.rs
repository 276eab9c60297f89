//! Coercing backend column values into JSON scalars and rendering the
//! result document.
//!
//! The document has a single top-level member: the input file's root name,
//! holding the array of row objects in result order. Rendering is the
//! pretty two-space-indent layout. Textual values follow the numeric
//! heuristic: try a signed 64-bit integer first, then a simple decimal
//! fraction (normalized by trimming), and otherwise keep the text.

use vstd::prelude::*;
use crate::numbers::{
    check_simple_decimal, dec_rep, digit_char, digit_char_of, int_rep, is_number_text,
    is_number_token, is_simple_decimal, norm_decimal, normalize_decimal, parse_i64,
    parse_i64_spec, push_i64_digits, push_u64_digits,
};
use crate::paths::{root_name_chars, root_name_of};
use crate::text::{chars_of, string_from_chars};

verus! {

/// A column value as the backend reports it, reduced to plain data: text
/// (already decoded), signed and unsigned integers, an approximate
/// (floating-point-typed) value carried as its decimal rendering or absent
/// when it has none, and calendar values carried by their fields.
pub enum SqlValue {
    Null,
    Text(String),
    Int(i64),
    UInt(u64),
    Approx(Option<String>),
    Date(u16, u8, u8, u8, u8, u8, u32),
    Time(bool, u32, u8, u8, u8, u32),
}

/// A JSON scalar as written into the document.
pub enum JsonValue {
    Null,
    Number(String),
    Text(String),
}

/// The mathematical shape of a JSON scalar.
pub enum JsonScalar {
    Null,
    Number(Seq<char>),
    Text(Seq<char>),
}

impl View for JsonValue {
    type V = JsonScalar;

    open spec fn view(&self) -> JsonScalar {
        match self {
            JsonValue::Null => JsonScalar::Null,
            JsonValue::Number(t) => JsonScalar::Number(t@),
            JsonValue::Text(s) => JsonScalar::Text(s@),
        }
    }
}

/// `k` zeros.
pub open spec fn zeros_seq(k: int) -> Seq<char>
    decreases k,
{
    if k <= 0 {
        Seq::empty()
    } else {
        zeros_seq(k - 1) + seq!['0']
    }
}

/// `s` left-padded with zeros to width `w` (kept as is when longer).
pub open spec fn pad_left(s: Seq<char>, w: int) -> Seq<char> {
    if s.len() >= w {
        s
    } else {
        zeros_seq(w - s.len()) + s
    }
}

/// The `YYYY-MM-DD` rendering of a date.
pub open spec fn date_text(y: u16, mo: u8, d: u8) -> Seq<char> {
    pad_left(dec_rep(y as nat), 4) + seq!['-'] + pad_left(dec_rep(mo as nat), 2) + seq!['-']
        + pad_left(dec_rep(d as nat), 2)
}

/// The `HH:MM:SS.ffffff` rendering of a time of day.
pub open spec fn time_text(h: u8, mi: u8, se: u8, us: u32) -> Seq<char> {
    pad_left(dec_rep(h as nat), 2) + seq![':'] + pad_left(dec_rep(mi as nat), 2) + seq![':']
        + pad_left(dec_rep(se as nat), 2) + seq!['.'] + pad_left(dec_rep(us as nat), 6)
}

/// The numeric heuristic on a textual value: integer, then simple decimal,
/// then the text unchanged.
pub open spec fn coerce_text(s: Seq<char>) -> JsonScalar {
    if parse_i64_spec(s) is Some {
        JsonScalar::Number(int_rep(parse_i64_spec(s)->0 as int))
    } else if is_simple_decimal(s) {
        JsonScalar::Number(norm_decimal(s))
    } else {
        JsonScalar::Text(s)
    }
}

/// The JSON scalar a column value coerces to.
pub open spec fn spec_convert(v: SqlValue) -> JsonScalar {
    match v {
        SqlValue::Null => JsonScalar::Null,
        SqlValue::Text(s) => coerce_text(s@),
        SqlValue::Int(i) => JsonScalar::Number(int_rep(i as int)),
        SqlValue::UInt(u) => JsonScalar::Number(dec_rep(u as nat)),
        SqlValue::Approx(o) => match o {
            Option::None => JsonScalar::Null,
            Option::Some(t) => if is_number_text(t@) {
                JsonScalar::Number(t@)
            } else {
                JsonScalar::Null
            },
        },
        SqlValue::Date(y, mo, d, _h, _mi, _se, _us) => JsonScalar::Text(date_text(y, mo, d)),
        SqlValue::Time(_neg, _days, h, mi, se, us) => JsonScalar::Text(time_text(h, mi, se, us)),
    }
}

/// The escape of one character inside a JSON string literal.
pub open spec fn escape_char(c: char) -> Seq<char> {
    if c == '"' {
        seq!['\\', '"']
    } else if c == '\\' {
        seq!['\\', '\\']
    } else if c == '\n' {
        seq!['\\', 'n']
    } else if c == '\r' {
        seq!['\\', 'r']
    } else if c == '\t' {
        seq!['\\', 't']
    } else if c == '\u{8}' {
        seq!['\\', 'b']
    } else if c == '\u{c}' {
        seq!['\\', 'f']
    } else if (c as u32) < 32 {
        seq!['\\', 'u', '0', '0', digit_char_of((c as u32 / 16) as int), hex_char_of(
            (c as u32 % 16) as int,
        )]
    } else {
        seq![c]
    }
}

/// The lower-case hexadecimal digit with value `d`.
pub open spec fn hex_char_of(d: int) -> char {
    if d < 10 {
        digit_char_of(d)
    } else if d == 10 {
        'a'
    } else if d == 11 {
        'b'
    } else if d == 12 {
        'c'
    } else if d == 13 {
        'd'
    } else if d == 14 {
        'e'
    } else {
        'f'
    }
}

/// The escape of a whole string body.
pub open spec fn escape_seq(s: Seq<char>) -> Seq<char>
    decreases s.len(),
{
    if s.len() == 0 {
        Seq::empty()
    } else {
        escape_seq(s.drop_last()) + escape_char(s.last())
    }
}

/// The rendering of one scalar.
pub open spec fn render_scalar(j: JsonScalar) -> Seq<char> {
    match j {
        JsonScalar::Null => seq!['n', 'u', 'l', 'l'],
        JsonScalar::Number(t) => t,
        JsonScalar::Text(s) => seq!['"'] + escape_seq(s) + seq!['"'],
    }
}

/// One member line of a row object, at its indentation.
pub open spec fn render_member(m: (Seq<char>, JsonScalar)) -> Seq<char> {
    seq![' ', ' ', ' ', ' ', ' ', ' ', '"'] + escape_seq(m.0) + seq!['"', ':', ' ']
        + render_scalar(m.1)
}

/// The member lines of a row object, separated by `,\n`.
pub open spec fn render_members(ms: Seq<(Seq<char>, JsonScalar)>) -> Seq<char>
    decreases ms.len(),
{
    if ms.len() == 0 {
        Seq::empty()
    } else if ms.len() == 1 {
        render_member(ms[0])
    } else {
        render_members(ms.drop_last()) + seq![',', '\n'] + render_member(ms.last())
    }
}

/// One row object.
pub open spec fn render_row(ms: Seq<(Seq<char>, JsonScalar)>) -> Seq<char> {
    if ms.len() == 0 {
        seq!['{', '}']
    } else {
        seq!['{', '\n'] + render_members(ms) + seq!['\n', ' ', ' ', ' ', ' ', '}']
    }
}

/// The rows of the array, each at its indentation, separated by `,\n`.
pub open spec fn render_rows(rs: Seq<Seq<(Seq<char>, JsonScalar)>>) -> Seq<char>
    decreases rs.len(),
{
    if rs.len() == 0 {
        Seq::empty()
    } else if rs.len() == 1 {
        seq![' ', ' ', ' ', ' '] + render_row(rs[0])
    } else {
        render_rows(rs.drop_last()) + seq![',', '\n', ' ', ' ', ' ', ' '] + render_row(rs.last())
    }
}

/// The whole array.
pub open spec fn render_array(rs: Seq<Seq<(Seq<char>, JsonScalar)>>) -> Seq<char> {
    if rs.len() == 0 {
        seq!['[', ']']
    } else {
        seq!['[', '\n'] + render_rows(rs) + seq!['\n', ' ', ' ', ']']
    }
}

/// The whole document: one member named `root` holding the array.
pub open spec fn render_document(root: Seq<char>, rs: Seq<Seq<(Seq<char>, JsonScalar)>>) -> Seq<
    char,
> {
    seq!['{', '\n', ' ', ' ', '"'] + escape_seq(root) + seq!['"', ':', ' '] + render_array(rs)
        + seq!['\n', '}']
}

/// One statement's tabular result: its column names, and each row's values
/// in column order.
pub struct ResultGroup {
    pub columns: Vec<String>,
    pub rows: Vec<Vec<SqlValue>>,
}

/// The members of one row object: one per column, taking `Null` where the
/// row is shorter than the column list.
pub open spec fn row_members(cols: Seq<String>, vals: Seq<SqlValue>) -> Seq<
    (Seq<char>, JsonScalar),
> {
    Seq::new(
        cols.len(),
        |j: int|
            (
                cols[j]@,
                if 0 <= j < vals.len() {
                    spec_convert(vals[j])
                } else {
                    JsonScalar::Null
                },
            ),
    )
}

/// The row objects of one result group.
pub open spec fn group_rows(g: ResultGroup) -> Seq<Seq<(Seq<char>, JsonScalar)>> {
    Seq::new(g.rows@.len(), |k: int| row_members(g.columns@, g.rows@[k]@))
}

/// All rows of all groups, flattened in group order then row order.
pub open spec fn flat_rows(gs: Seq<ResultGroup>) -> Seq<Seq<(Seq<char>, JsonScalar)>>
    decreases gs.len(),
{
    if gs.len() == 0 {
        Seq::empty()
    } else {
        flat_rows(gs.drop_last()) + group_rows(gs.last())
    }
}

/// The lower-case hexadecimal digit with value `d`, as executable code.
fn hex_char(d: u32) -> (c: char)
    requires
        d < 16,
    ensures
        c == hex_char_of(d as int),
{
    if d < 10 {
        digit_char(d as u64)
    } else if d == 10 {
        'a'
    } else if d == 11 {
        'b'
    } else if d == 12 {
        'c'
    } else if d == 13 {
        'd'
    } else if d == 14 {
        'e'
    } else {
        'f'
    }
}

/// Append the escaped form of `src` to `out`.
fn escape_into(src: &Vec<char>, out: &mut Vec<char>)
    ensures
        final(out)@ == old(out)@ + escape_seq(src@),
{
    let n = src.len();
    let mut i: usize = 0;
    while i < n
        invariant
            i <= n,
            n == src@.len(),
            out@ == old(out)@ + escape_seq(src@.take(i as int)),
        decreases n - i,
    {
        let ghost before = out@;
        let c = src[i];
        if c == '"' {
            out.push('\\');
            out.push('"');
        } else if c == '\\' {
            out.push('\\');
            out.push('\\');
        } else if c == '\n' {
            out.push('\\');
            out.push('n');
        } else if c == '\r' {
            out.push('\\');
            out.push('r');
        } else if c == '\t' {
            out.push('\\');
            out.push('t');
        } else if c == '\u{8}' {
            out.push('\\');
            out.push('b');
        } else if c == '\u{c}' {
            out.push('\\');
            out.push('f');
        } else if (c as u32) < 32 {
            out.push('\\');
            out.push('u');
            out.push('0');
            out.push('0');
            let hi = digit_char((c as u32 / 16) as u64);
            out.push(hi);
            let lo = hex_char(c as u32 % 16);
            out.push(lo);
        } else {
            out.push(c);
        }
        proof {
            assert(out@ =~= before + escape_char(src@[i as int]));
            assert(src@.take(i + 1 as int).drop_last() =~= src@.take(i as int));
            assert(src@.take(i + 1 as int).last() == src@[i as int]);
            assert(out@ =~= old(out)@ + escape_seq(src@.take(i + 1 as int)));
        }
        i = i + 1;
    }
    proof {
        assert(src@.take(n as int) =~= src@);
    }
}

/// Append `n` zero-padded to `width` digits (kept whole when longer).
fn push_padded(n: u64, width: usize, out: &mut Vec<char>)
    ensures
        final(out)@ == old(out)@ + pad_left(dec_rep(n as nat), width as int),
{
    let mut digits: Vec<char> = Vec::new();
    push_u64_digits(n, &mut digits);
    let dl = digits.len();
    let mut j = dl;
    while j < width
        invariant
            dl <= j,
            j <= width || j == dl,
            digits@ == dec_rep(n as nat),
            dl == digits@.len(),
            out@ == old(out)@ + zeros_seq(j - dl),
        decreases width - j,
    {
        out.push('0');
        proof {
            assert(out@ =~= old(out)@ + zeros_seq(j + 1 - dl));
        }
        j = j + 1;
    }
    let mut t: usize = 0;
    while t < dl
        invariant
            t <= dl,
            dl == digits@.len(),
            digits@ == dec_rep(n as nat),
            out@ == old(out)@ + zeros_seq(j as int - dl) + digits@.take(t as int),
            j == if dl < width {
                width as int
            } else {
                dl as int
            },
        decreases dl - t,
    {
        let c = digits[t];
        out.push(c);
        proof {
            assert(out@ =~= old(out)@ + zeros_seq(j as int - dl) + digits@.take(t + 1 as int));
        }
        t = t + 1;
    }
    proof {
        assert(digits@.take(dl as int) =~= digits@);
        assert(out@ =~= old(out)@ + pad_left(dec_rep(n as nat), width as int));
    }
}

/// Coerce one column value to the JSON scalar the document holds.
pub fn convert_value(v: &SqlValue) -> (r: JsonValue)
    ensures
        r@ == spec_convert(*v),
{
    match v {
        SqlValue::Null => JsonValue::Null,
        SqlValue::Text(s) => {
            let cs = chars_of(s.as_str());
            match parse_i64(&cs) {
                Option::Some(i) => {
                    let mut digits: Vec<char> = Vec::new();
                    push_i64_digits(i, &mut digits);
                    JsonValue::Number(string_from_chars(&digits))
                },
                Option::None => {
                    if check_simple_decimal(&cs) {
                        let norm = normalize_decimal(&cs);
                        JsonValue::Number(string_from_chars(&norm))
                    } else {
                        JsonValue::Text(s.clone())
                    }
                },
            }
        },
        SqlValue::Int(i) => {
            let mut digits: Vec<char> = Vec::new();
            push_i64_digits(*i, &mut digits);
            JsonValue::Number(string_from_chars(&digits))
        },
        SqlValue::UInt(u) => {
            let mut digits: Vec<char> = Vec::new();
            push_u64_digits(*u, &mut digits);
            JsonValue::Number(string_from_chars(&digits))
        },
        SqlValue::Approx(o) => match o {
            Option::None => JsonValue::Null,
            Option::Some(t) => {
                let cs = chars_of(t.as_str());
                if is_number_token(&cs) {
                    JsonValue::Number(t.clone())
                } else {
                    JsonValue::Null
                }
            },
        },
        SqlValue::Date(y, mo, d, _h, _mi, _se, _us) => {
            let mut cs: Vec<char> = Vec::new();
            push_padded(*y as u64, 4, &mut cs);
            cs.push('-');
            push_padded(*mo as u64, 2, &mut cs);
            cs.push('-');
            push_padded(*d as u64, 2, &mut cs);
            proof {
                assert(cs@ =~= date_text(*y, *mo, *d));
            }
            JsonValue::Text(string_from_chars(&cs))
        },
        SqlValue::Time(_neg, _days, h, mi, se, us) => {
            let mut cs: Vec<char> = Vec::new();
            push_padded(*h as u64, 2, &mut cs);
            cs.push(':');
            push_padded(*mi as u64, 2, &mut cs);
            cs.push(':');
            push_padded(*se as u64, 2, &mut cs);
            cs.push('.');
            push_padded(*us as u64, 6, &mut cs);
            proof {
                assert(cs@ =~= time_text(*h, *mi, *se, *us));
            }
            JsonValue::Text(string_from_chars(&cs))
        },
    }
}

/// Append the rendering of one scalar.
fn push_scalar(jv: &JsonValue, out: &mut Vec<char>)
    ensures
        final(out)@ == old(out)@ + render_scalar(jv@),
{
    match jv {
        JsonValue::Null => {
            out.push('n');
            out.push('u');
            out.push('l');
            out.push('l');
            proof {
                assert(out@ =~= old(out)@ + render_scalar(jv@));
            }
        },
        JsonValue::Number(t) => {
            let mut tc = chars_of(t.as_str());
            out.append(&mut tc);
        },
        JsonValue::Text(s) => {
            out.push('"');
            let cs = chars_of(s.as_str());
            escape_into(&cs, out);
            out.push('"');
            proof {
                assert(out@ =~= old(out)@ + render_scalar(jv@));
            }
        },
    }
}

/// Append one member line.
fn push_member(col: &String, jv: &JsonValue, out: &mut Vec<char>)
    ensures
        final(out)@ == old(out)@ + render_member((col@, jv@)),
{
    out.push(' ');
    out.push(' ');
    out.push(' ');
    out.push(' ');
    out.push(' ');
    out.push(' ');
    out.push('"');
    let cc = chars_of(col.as_str());
    escape_into(&cc, out);
    out.push('"');
    out.push(':');
    out.push(' ');
    push_scalar(jv, out);
    proof {
        assert(out@ =~= old(out)@ + render_member((col@, jv@)));
    }
}

/// Append one row object.
#[verifier::rlimit(100)]
fn push_row(cols: &Vec<String>, vals: &Vec<SqlValue>, out: &mut Vec<char>)
    ensures
        final(out)@ == old(out)@ + render_row(row_members(cols@, vals@)),
{
    let ghost ms = row_members(cols@, vals@);
    let nc = cols.len();
    if nc == 0 {
        out.push('{');
        out.push('}');
        proof {
            assert(out@ =~= old(out)@ + render_row(ms));
        }
        return ;
    }
    out.push('{');
    out.push('\n');
    let mut j: usize = 0;
    while j < nc
        invariant
            j <= nc,
            nc == cols@.len(),
            ms == row_members(cols@, vals@),
            ms.len() == nc,
            out@ == old(out)@ + seq!['{', '\n'] + render_members(ms.take(j as int)),
        decreases nc - j,
    {
        if j > 0 {
            out.push(',');
            out.push('\n');
        }
        let jv = if j < vals.len() {
            convert_value(&vals[j])
        } else {
            JsonValue::Null
        };
        proof {
            assert(ms[j as int].1 == jv@);
        }
        push_member(&cols[j], &jv, out);
        proof {
            assert(ms.take(j + 1 as int).drop_last() =~= ms.take(j as int));
            assert(ms.take(j + 1 as int).last() == ms[j as int]);
            assert(out@ =~= old(out)@ + seq!['{', '\n'] + render_members(ms.take(j + 1 as int)));
        }
        j = j + 1;
    }
    out.push('\n');
    out.push(' ');
    out.push(' ');
    out.push(' ');
    out.push(' ');
    out.push('}');
    proof {
        assert(ms.take(nc as int) =~= ms);
        assert(out@ =~= old(out)@ + render_row(ms));
    }
}

/// Builder of the output document.
pub struct JsonGenerator {
    version: String,
}

impl JsonGenerator {
    /// A generator; the server version is kept only as run information.
    pub fn new(mysql_version: String) -> (r: Self) {
        JsonGenerator { version: mysql_version }
    }

    /// Render the whole document for `results`, rooted at the name derived
    /// from `sql_file_path`.
    pub fn generate_json(&self, results: &Vec<ResultGroup>, sql_file_path: &str) -> (r: String)
        ensures
            r@ == render_document(root_name_of(sql_file_path@), flat_rows(results@)),
    {
        generate_document(results, sql_file_path)
    }
}

/// Render the whole document for `results`, rooted at the name derived
/// from `sql_file_path`.
#[verifier::rlimit(100)]
pub fn generate_document(results: &Vec<ResultGroup>, sql_file_path: &str) -> (r: String)
    ensures
        r@ == render_document(root_name_of(sql_file_path@), flat_rows(results@)),
{
    let ghost all = flat_rows(results@);
    let mut out: Vec<char> = Vec::new();
    out.push('{');
    out.push('\n');
    out.push(' ');
    out.push(' ');
    out.push('"');
    let root = root_name_chars(sql_file_path);
    escape_into(&root, &mut out);
    out.push('"');
    out.push(':');
    out.push(' ');
    let ghost header = out@;
    proof {
        assert(header =~= seq!['{', '\n', ' ', ' ', '"'] + escape_seq(root_name_of(
            sql_file_path@,
        )) + seq!['"', ':', ' ']);
    }
    let ng = results.len();
    // Is there any row at all?
    let mut has_rows = false;
    let mut gi: usize = 0;
    while gi < ng
        invariant
            gi <= ng,
            ng == results@.len(),
            has_rows == (flat_rows(results@.take(gi as int)).len() != 0),
        decreases ng - gi,
    {
        if results[gi].rows.len() > 0 {
            has_rows = true;
        }
        proof {
            assert(results@.take(gi + 1 as int).drop_last() =~= results@.take(gi as int));
            assert(results@.take(gi + 1 as int).last() == results@[gi as int]);
        }
        gi = gi + 1;
    }
    proof {
        assert(results@.take(ng as int) =~= results@);
    }
    if !has_rows {
        out.push('[');
        out.push(']');
    } else {
        out.push('[');
        out.push('\n');
        let ghost prefix = out@;
        let mut first = true;
        let mut g: usize = 0;
        while g < ng
            invariant
                g <= ng,
                ng == results@.len(),
                prefix == header + seq!['[', '\n'],
                out@ == prefix + render_rows(flat_rows(results@.take(g as int))),
                first == (flat_rows(results@.take(g as int)).len() == 0),
            decreases ng - g,
        {
            let ghost gdone = flat_rows(results@.take(g as int));
            let nr = results[g].rows.len();
            let mut ri: usize = 0;
            while ri < nr
                invariant
                    ri <= nr,
                    g < ng,
                    ng == results@.len(),
                    nr == results@[g as int].rows@.len(),
                    gdone == flat_rows(results@.take(g as int)),
                    prefix == header + seq!['[', '\n'],
                    out@ == prefix + render_rows(
                        gdone + group_rows(results@[g as int]).take(ri as int),
                    ),
                    first == ((gdone + group_rows(results@[g as int]).take(ri as int)).len() == 0),
                decreases nr - ri,
            {
                let ghost cur = gdone + group_rows(results@[g as int]).take(ri as int);
                if first {
                    first = false;
                } else {
                    out.push(',');
                    out.push('\n');
                }
                out.push(' ');
                out.push(' ');
                out.push(' ');
                out.push(' ');
                push_row(&results[g].columns, &results[g].rows[ri], &mut out);
                proof {
                    let next = gdone + group_rows(results@[g as int]).take(ri + 1 as int);
                    assert(next.drop_last() =~= cur);
                    assert(next.last() == group_rows(results@[g as int])[ri as int]);
                    assert(group_rows(results@[g as int])[ri as int] == row_members(
                        results@[g as int].columns@,
                        results@[g as int].rows@[ri as int]@,
                    ));
                    if cur.len() == 0 {
                        assert(render_rows(next) == seq![' ', ' ', ' ', ' '] + render_row(
                            next.last(),
                        ));
                        assert(out@ =~= prefix + render_rows(next));
                    } else {
                        assert(render_rows(next) == render_rows(cur) + seq![
                            ',',
                            '\n',
                            ' ',
                            ' ',
                            ' ',
                            ' ',
                        ] + render_row(next.last()));
                        assert(out@ =~= prefix + render_rows(next));
                    }
                }
                ri = ri + 1;
            }
            proof {
                assert(group_rows(results@[g as int]).take(nr as int) =~= group_rows(
                    results@[g as int],
                ));
                assert(results@.take(g + 1 as int).drop_last() =~= results@.take(g as int));
                assert(results@.take(g + 1 as int).last() == results@[g as int]);
                assert(flat_rows(results@.take(g + 1 as int)) == gdone + group_rows(
                    results@[g as int],
                ));
            }
            g = g + 1;
        }
        proof {
            assert(results@.take(ng as int) =~= results@);
        }
        out.push('\n');
        out.push(' ');
        out.push(' ');
        out.push(']');
        proof {
            assert(out@ =~= header + render_array(all));
        }
    }
    out.push('\n');
    out.push('}');
    proof {
        assert(out@ =~= render_document(root_name_of(sql_file_path@), all));
    }
    string_from_chars(&out)
}

} // verus!
