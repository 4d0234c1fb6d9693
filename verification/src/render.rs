//! Markdown rendering of the percentile table.
//!
//! Values arrive already formatted (the library holds no floating-point
//! numbers); this module owns the table's layout.
use vstd::prelude::*;

verus! {

/// The decimal digit `d` (`0 <= d < 10`) as a character.
pub open spec fn digit_char(d: nat) -> char {
    if d == 0 {
        '0'
    } else if d == 1 {
        '1'
    } else if d == 2 {
        '2'
    } else if d == 3 {
        '3'
    } else if d == 4 {
        '4'
    } else if d == 5 {
        '5'
    } else if d == 6 {
        '6'
    } else if d == 7 {
        '7'
    } else if d == 8 {
        '8'
    } else {
        '9'
    }
}

/// The decimal notation of `n`, without leading zeros.
pub open spec fn decimal(n: nat) -> Seq<char>
    decreases n,
{
    if n < 10 {
        seq![digit_char(n)]
    } else {
        decimal(n / 10).push(digit_char(n % 10))
    }
}

/// `c` is one of the ASCII digits `0`..=`9`.
pub open spec fn is_ascii_digit(c: char) -> bool {
    '0' <= c <= '9'
}

/// The number that a string of ASCII digits denotes in base 10.
pub open spec fn base10_value(s: Seq<char>) -> int
    decreases s.len(),
{
    if s.len() == 0 {
        0
    } else {
        base10_value(s.drop_last()) * 10 + (s.last() as int - '0' as int)
    }
}

/// `decimal(n)` is the positional base-10 notation of `n`: a non-empty
/// string of ASCII digits that reads back as `n`, with no leading zero
/// unless `n` is 0 itself.
pub proof fn law_decimal_reads_back(n: nat)
    ensures
        decimal(n).len() > 0,
        forall|i: int| 0 <= i < decimal(n).len() ==> is_ascii_digit(#[trigger] decimal(n)[i]),
        base10_value(decimal(n)) == n,
        decimal(n)[0] == '0' ==> n == 0,
    decreases n,
{
    if n >= 10 {
        law_decimal_reads_back(n / 10);
        let prefix = decimal(n / 10);
        let d = n % 10;
        assert(decimal(n).drop_last() =~= prefix);
        assert(decimal(n)[0] == prefix[0]);
        assert(digit_char(d) as int - '0' as int == d);
        assert forall|i: int| 0 <= i < decimal(n).len() implies is_ascii_digit(
            #[trigger] decimal(n)[i],
        ) by {
            if i < prefix.len() {
                assert(decimal(n)[i] == prefix[i]);
            }
        }
        assert(n == (n / 10) * 10 + d);
        assert(decimal(n).last() == digit_char(d));
        assert(base10_value(decimal(n)) == base10_value(prefix) * 10 + d);
    } else {
        assert(digit_char(n) as int - '0' as int == n);
        assert(decimal(n).drop_last() =~= Seq::<char>::empty());
        assert(base10_value(Seq::<char>::empty()) == 0);
        assert(base10_value(decimal(n)) == base10_value(Seq::<char>::empty()) * 10 + n);
    }
}

/// The one-character string of the digit `d`.
fn digit_str(d: usize) -> (s: &'static str)
    requires
        d < 10,
    ensures
        s@ == seq![digit_char(d as nat)],
{
    proof {
        reveal_strlit("0");
        reveal_strlit("1");
        reveal_strlit("2");
        reveal_strlit("3");
        reveal_strlit("4");
        reveal_strlit("5");
        reveal_strlit("6");
        reveal_strlit("7");
        reveal_strlit("8");
        reveal_strlit("9");
    }
    if d == 0 {
        "0"
    } else if d == 1 {
        "1"
    } else if d == 2 {
        "2"
    } else if d == 3 {
        "3"
    } else if d == 4 {
        "4"
    } else if d == 5 {
        "5"
    } else if d == 6 {
        "6"
    } else if d == 7 {
        "7"
    } else if d == 8 {
        "8"
    } else {
        "9"
    }
}

/// `n` in decimal notation.
pub fn decimal_string(n: usize) -> (s: String)
    ensures
        s@ == decimal(n as nat),
        base10_value(s@) == n,
        forall|i: int| 0 <= i < s@.len() ==> is_ascii_digit(#[trigger] s@[i]),
    decreases n,
{
    proof {
        law_decimal_reads_back(n as nat);
    }
    if n < 10 {
        String::from_str(digit_str(n))
    } else {
        let mut s = decimal_string(n / 10);
        s.append(digit_str(n % 10));
        s
    }
}

/// A table cell: the formatted value, or `-` when there is none.
pub open spec fn cell_text(cell: Option<Seq<char>>) -> Seq<char> {
    match cell {
        Some(text) => text,
        None => "-"@,
    }
}

/// The view of an optional string slice.
pub open spec fn opt_view(cell: Option<&str>) -> Option<Seq<char>> {
    match cell {
        Some(text) => Some(text@),
        None => None,
    }
}

/// The percentile table: a header row annotated with `unit`, a separator
/// row, and one data row with the four percentile cells and the sample
/// count.
pub open spec fn percentile_table_text(
    unit: Seq<char>,
    p50: Option<Seq<char>>,
    p99: Option<Seq<char>>,
    p999: Option<Seq<char>>,
    max: Option<Seq<char>>,
    count: nat,
) -> Seq<char> {
    "| P50 ("@ + unit + ") | P99 ("@ + unit + ") | P99.9 ("@ + unit + ") | Max ("@ + unit
        + ") | N |\n"@ + "|---|---|---|---|---|\n"@ + "| "@ + cell_text(p50) + " | "@ + cell_text(
        p99,
    ) + " | "@ + cell_text(p999) + " | "@ + cell_text(max) + " | "@ + decimal(count) + " |"@
}

/// Appends a cell's text.
fn push_cell(out: &mut String, cell: Option<&str>)
    ensures
        final(out)@ == old(out)@ + cell_text(opt_view(cell)),
{
    match cell {
        Some(text) => out.append(text),
        None => out.append("-"),
    }
}

/// Renders the window as a README-ready markdown table: a
/// `| P50 | P99 | P99.9 | Max | N |` header (annotated with `unit`), a
/// separator row, and one data row. Missing values (an empty window) render
/// as `-`.
pub fn percentile_table(
    unit: &str,
    p50: Option<&str>,
    p99: Option<&str>,
    p999: Option<&str>,
    max: Option<&str>,
    count: usize,
) -> (table: String)
    ensures
        table@ == percentile_table_text(
            unit@,
            opt_view(p50),
            opt_view(p99),
            opt_view(p999),
            opt_view(max),
            count as nat,
        ),
{
    let mut out = String::from_str("| P50 (");
    out.append(unit);
    out.append(") | P99 (");
    out.append(unit);
    out.append(") | P99.9 (");
    out.append(unit);
    out.append(") | Max (");
    out.append(unit);
    out.append(") | N |\n");
    out.append("|---|---|---|---|---|\n");
    out.append("| ");
    push_cell(&mut out, p50);
    out.append(" | ");
    push_cell(&mut out, p99);
    out.append(" | ");
    push_cell(&mut out, p999);
    out.append(" | ");
    push_cell(&mut out, max);
    out.append(" | ");
    let n = decimal_string(count);
    out.append(n.as_str());
    out.append(" |");
    out
}

} // verus!
