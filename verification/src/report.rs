//! Rendering the answer to a raw query as lines of text: numbers in
//! decimal, cells joined by ` | `, a header and a rule under it.
use vstd::prelude::*;
use vstd::string::*;
use vstd::utf8::{decode_utf8, encode_utf8, valid_utf8};
use crate::text::push_char;

verus! {

/// A value of a result cell. A real number arrives already rendered.
#[derive(Debug)]
pub enum SqlValue {
    Null,
    Integer(i64),
    Real(String),
    Text(Vec<u8>),
    Blob(Vec<u8>),
}

pub open spec fn digit_char(d: int) -> char {
    if d == 0 {
        '0'
    } else if d == 1 {
        '1'
    } else if d == 2 {
        '2'
    } else if d == 3 {
        '3'
    } else if d == 4 {
        '4'
    } else if d == 5 {
        '5'
    } else if d == 6 {
        '6'
    } else if d == 7 {
        '7'
    } else if d == 8 {
        '8'
    } else {
        '9'
    }
}

/// The decimal digits of `n`, most significant first.
pub open spec fn nat_digits(n: nat) -> Seq<char>
    decreases n,
{
    if n < 10 {
        seq![digit_char(n as int)]
    } else {
        nat_digits(n / 10).push(digit_char((n % 10) as int))
    }
}

/// `n` in decimal, with a leading `-` when it is negative.
pub open spec fn int_digits(n: int) -> Seq<char> {
    if n < 0 {
        seq!['-'] + nat_digits((-n) as nat)
    } else {
        nat_digits(n as nat)
    }
}

/// The parts joined, with `sep` between each two.
pub open spec fn join(parts: Seq<Seq<char>>, sep: Seq<char>) -> Seq<char>
    decreases parts.len(),
{
    if parts.len() == 0 {
        Seq::empty()
    } else if parts.len() == 1 {
        parts[0]
    } else {
        join(parts.drop_last(), sep) + sep + parts.last()
    }
}

pub open spec fn cell_sep() -> Seq<char> {
    seq![' ', '|', ' ']
}

/// What `String::from_utf8_lossy` makes of `bytes`.
pub uninterp spec fn utf8_lossy(bytes: Seq<u8>) -> Seq<char>;

pub open spec fn null_text() -> Seq<char> {
    seq!['N', 'U', 'L', 'L']
}

/// How a cell is shown; text that is valid UTF-8 shows as its decoding.
pub open spec fn render(v: SqlValue) -> Seq<char> {
    match v {
        SqlValue::Null => null_text(),
        SqlValue::Integer(i) => int_digits(i as int),
        SqlValue::Real(s) => s@,
        SqlValue::Text(b) => if valid_utf8(b@) {
            decode_utf8(b@)
        } else {
            utf8_lossy(b@)
        },
        SqlValue::Blob(b) => seq!['<', 'B', 'L', 'O', 'B', ' '] + nat_digits(b@.len()) + seq![
            ' ',
            'b',
            'y',
            't',
            'e',
            's',
            '>',
        ],
    }
}

/// The line that reports how many rows a statement changed.
pub open spec fn changes_line(changes: nat) -> Seq<char> {
    seq!['S', 'U', 'C', 'C', 'E', 'S', 'S', ':', ' '] + nat_digits(changes) + seq![
        ' ',
        'r',
        'o',
        'w',
        's',
        ' ',
        'a',
        'f',
        'f',
        'e',
        'c',
        't',
        'e',
        'd',
        '.',
    ]
}

/// The lines of a query's answer: the column names, a rule of dashes as
/// long as the header is in UTF-8 bytes (its `str::len`), then one line per
/// row.
pub open spec fn query_lines(columns: Seq<Seq<char>>, rows: Seq<Seq<SqlValue>>) -> Seq<Seq<char>> {
    let header = join(columns, cell_sep());
    seq![header, Seq::new((encode_utf8(header).len() as usize) as nat, |i: int| '-')] + rows.map_values(
        |r: Seq<SqlValue>| join(r.map_values(|c: SqlValue| render(c)), cell_sep()),
    )
}

/// Decodes bytes as UTF-8, replacing invalid sequences: calls
/// `String::from_utf8_lossy`. Trusted to return the decoding of valid
/// UTF-8 unchanged, and a value that depends on the bytes alone.
#[verifier::external_body]
fn decode_lossy(bytes: &[u8]) -> (r: String)
    ensures
        r@ == utf8_lossy(bytes@),
        valid_utf8(bytes@) ==> r@ == decode_utf8(bytes@),
{
    String::from_utf8_lossy(bytes).into_owned()
}

/// Appends `n` in decimal.
pub fn push_decimal(out: &mut String, n: u64)
    ensures
        final(out)@ == old(out)@ + nat_digits(n as nat),
    decreases n,
{
    if n >= 10 {
        push_decimal(out, n / 10);
    }
    let d = n % 10;
    let c = if d == 0 {
        '0'
    } else if d == 1 {
        '1'
    } else if d == 2 {
        '2'
    } else if d == 3 {
        '3'
    } else if d == 4 {
        '4'
    } else if d == 5 {
        '5'
    } else if d == 6 {
        '6'
    } else if d == 7 {
        '7'
    } else if d == 8 {
        '8'
    } else {
        '9'
    };
    push_char(out, c);
    proof {
        if n >= 10 {
            assert(nat_digits(n as nat) == nat_digits((n / 10) as nat).push(digit_char((n % 10) as int)));
        }
    }
}

/// `n` in decimal.
pub fn decimal_u64(n: u64) -> (r: String)
    ensures
        r@ == nat_digits(n as nat),
{
    let mut out = String::new();
    push_decimal(&mut out, n);
    proof {
        assert(out@ =~= nat_digits(n as nat));
    }
    out
}

/// `n` in decimal, with a leading `-` when it is negative.
pub fn decimal_i64(n: i64) -> (r: String)
    ensures
        r@ == int_digits(n as int),
{
    let mut out = String::new();
    if n < 0 {
        push_char(&mut out, '-');
        let m = (0i128 - n as i128) as u64;
        push_decimal(&mut out, m);
    } else {
        push_decimal(&mut out, n as u64);
    }
    proof {
        if n >= 0 {
            assert(out@ =~= nat_digits(n as nat));
        }
    }
    out
}

/// Appends the characters of `s`.
fn push_str(out: &mut String, s: &str)
    ensures
        final(out)@ == old(out)@ + s@,
{
    out.append(s);
}

/// The parts joined by ` | `.
pub fn join_cells(parts: &Vec<String>) -> (r: String)
    ensures
        r@ == join(parts@.map_values(|s: String| s@), cell_sep()),
{
    let ghost ps = parts@.map_values(|s: String| s@);
    let sep = " | ";
    proof {
        reveal_strlit(" | ");
        assert(sep@ =~= cell_sep());
    }
    let mut out = String::new();
    let mut i: usize = 0;
    proof {
        assert(ps.take(0) =~= Seq::<Seq<char>>::empty());
    }
    while i < parts.len()
        invariant
            ps == parts@.map_values(|s: String| s@),
            sep@ == cell_sep(),
            i <= parts.len(),
            out@ == join(ps.take(i as int), cell_sep()),
        decreases parts.len() - i,
    {
        proof {
            assert(ps.take(i + 1).drop_last() =~= ps.take(i as int));
            assert(ps.take(i + 1).last() == parts@[i as int]@);
        }
        if i > 0 {
            push_str(&mut out, sep);
        }
        push_str(&mut out, parts[i].as_str());
        proof {
            if i == 0 {
                assert(out@ =~= ps.take(1)[0]);
            }
        }
        i = i + 1;
    }
    proof {
        assert(ps.take(i as int) =~= ps);
    }
    out
}

/// How a cell is shown: `NULL`, an integer in decimal, a real as given,
/// text decoded from UTF-8, or a blob as its length.
pub fn render_cell(v: &SqlValue) -> (r: String)
    ensures
        r@ == render(*v),
{
    match v {
        SqlValue::Null => {
            let lit = "NULL";
            proof {
                reveal_strlit("NULL");
                assert(lit@ =~= null_text());
            }
            String::from_str(lit)
        },
        SqlValue::Integer(i) => decimal_i64(*i),
        SqlValue::Real(s) => s.clone(),
        SqlValue::Text(b) => decode_lossy(b.as_slice()),
        SqlValue::Blob(b) => {
            let open = "<BLOB ";
            let close = " bytes>";
            proof {
                reveal_strlit("<BLOB ");
                reveal_strlit(" bytes>");
            }
            let mut out = String::from_str(open);
            push_decimal(&mut out, b.len() as u64);
            push_str(&mut out, close);
            proof {
                assert(out@ =~= render(*v));
            }
            out
        },
    }
}

/// The line that reports how many rows a statement changed.
pub fn format_changes(changes: usize) -> (r: String)
    ensures
        r@ == changes_line(changes as nat),
{
    let open = "SUCCESS: ";
    let close = " rows affected.";
    proof {
        reveal_strlit("SUCCESS: ");
        reveal_strlit(" rows affected.");
    }
    let mut out = String::from_str(open);
    push_decimal(&mut out, changes as u64);
    push_str(&mut out, close);
    proof {
        assert(out@ =~= changes_line(changes as nat));
    }
    out
}

/// The lines of a query's answer: header, rule, and one line per row.
pub fn format_query_output(columns: &Vec<String>, rows: &Vec<Vec<SqlValue>>) -> (r: Vec<String>)
    ensures
        r@.map_values(|s: String| s@) == query_lines(
            columns@.map_values(|s: String| s@),
            rows@.map_values(|r: Vec<SqlValue>| r@),
        ),
{
    let ghost cols = columns@.map_values(|s: String| s@);
    let ghost rs = rows@.map_values(|r: Vec<SqlValue>| r@);
    let header = join_cells(columns);
    let width = header.as_str().len();
    let mut rule = String::new();
    let mut k: usize = 0;
    while k < width
        invariant
            k <= width,
            rule@ == Seq::new(k as nat, |i: int| '-'),
        decreases width - k,
    {
        push_char(&mut rule, '-');
        proof {
            assert(rule@ =~= Seq::new((k + 1) as nat, |i: int| '-'));
        }
        k = k + 1;
    }
    let mut out: Vec<String> = Vec::new();
    out.push(header);
    out.push(rule);
    let ghost head = seq![join(cols, cell_sep()), Seq::new((encode_utf8(join(cols, cell_sep())).len() as usize) as nat, |i: int| '-')];
    let ghost line = |r: Seq<SqlValue>| join(r.map_values(|c: SqlValue| render(c)), cell_sep());
    proof {
        assert(out@.map_values(|s: String| s@) =~= head);
        assert(rs.take(0).map_values(line) =~= Seq::<Seq<char>>::empty());
        assert(head + rs.take(0).map_values(line) =~= head);
    }
    let mut i: usize = 0;
    while i < rows.len()
        invariant
            rs == rows@.map_values(|r: Vec<SqlValue>| r@),
            line == (|r: Seq<SqlValue>| join(r.map_values(|c: SqlValue| render(c)), cell_sep())),
            i <= rows.len(),
            out@.map_values(|s: String| s@) == head + rs.take(i as int).map_values(line),
        decreases rows.len() - i,
    {
        let row = &rows[i];
        let mut cells: Vec<String> = Vec::new();
        let mut j: usize = 0;
        while j < row.len()
            invariant
                j <= row.len(),
                cells@.map_values(|s: String| s@) == row@.take(j as int).map_values(|c: SqlValue| render(c)),
            decreases row.len() - j,
        {
            let ghost before = cells@.map_values(|s: String| s@);
            cells.push(render_cell(&row[j]));
            proof {
                assert(cells@.map_values(|s: String| s@) =~= before.push(render(row@[j as int])));
                assert(row@.take(j + 1).map_values(|c: SqlValue| render(c))
                    =~= row@.take(j as int).map_values(|c: SqlValue| render(c)).push(render(row@[j as int])));
            }
            j = j + 1;
        }
        proof {
            assert(row@.take(j as int) =~= row@);
        }
        let ghost before = out@.map_values(|s: String| s@);
        let l = join_cells(&cells);
        out.push(l);
        proof {
            assert(rs[i as int] == row@);
            assert(out@.map_values(|s: String| s@) =~= before.push(line(rs[i as int])));
            assert(rs.take(i + 1).map_values(line) =~= rs.take(i as int).map_values(line).push(line(rs[i as int])));
        }
        i = i + 1;
    }
    proof {
        assert(rs.take(i as int) =~= rs);
        assert(head + rs.map_values(line) =~= query_lines(cols, rs));
    }
    out
}

/// A query's answer is the header, a rule, then exactly one line per row;
/// each row's line holds one cell per value of the row, in order, every
/// value rendered (a missing value as `NULL`) and the cells joined by
/// ` | `.
pub proof fn law_query_lines_one_cell_per_value(columns: Seq<Seq<char>>, rows: Seq<Seq<SqlValue>>)
    ensures
        query_lines(columns, rows).len() == rows.len() + 2,
        query_lines(columns, rows)[0] == join(columns, cell_sep()),
        forall|i: int| 0 <= i < rows.len() ==> #[trigger] query_lines(columns, rows)[i + 2]
            == join(Seq::new(rows[i].len(), |j: int| render(rows[i][j])), cell_sep()),
        render(SqlValue::Null) == seq!['N', 'U', 'L', 'L'],
{
    assert forall|i: int| 0 <= i < rows.len() implies #[trigger] query_lines(columns, rows)[i + 2]
        == join(Seq::new(rows[i].len(), |j: int| render(rows[i][j])), cell_sep()) by {
        assert(rows[i].map_values(|c: SqlValue| render(c)) =~= Seq::new(rows[i].len(), |j: int| render(rows[i][j])));
    }
}

/// Joining puts the separator between each two parts and nowhere else:
/// the parts, in order, with `sep` after every part but the last.
pub proof fn law_join_separates_parts(parts: Seq<Seq<char>>, sep: Seq<char>)
    requires
        parts.len() > 0,
    ensures
        join(parts, sep) == join(parts.drop_last(), sep) + (if parts.len() > 1 { sep } else { Seq::empty() })
            + parts.last(),
        join(parts, sep).len() == parts.fold_left(0int, |n: int, p: Seq<char>| n + p.len())
            + (parts.len() - 1) * sep.len(),
    decreases parts.len(),
{
    if parts.len() == 1 {
        assert(parts.drop_last().fold_left(0int, |n: int, p: Seq<char>| n + p.len()) == 0);
        assert(join(parts, sep) =~= Seq::empty() + Seq::<char>::empty() + parts.last());
    } else {
        law_join_separates_parts(parts.drop_last(), sep);
        let n = parts.len() as int;
        let k = sep.len() as int;
        assert((n - 1) * k == (n - 2) * k + k) by (nonlinear_arith);
    }
}

} // verus!
