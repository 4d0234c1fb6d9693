//! The budget gate's decision and rendering rules.
//!
//! A budget report has one row per budget. It passes when every row passes,
//! and the CI gate fails on its first failing row. Measured values and
//! budgets are floating-point numbers that callers format; this module
//! decides which cells show what, the shape of rows and of the table, and
//! which row a failing report is reported by.
use vstd::prelude::*;

verus! {

/// The text of one budget-table cell: `observed / ≤budget` when the value
/// is budgeted, `observed / —` when it is not, `n/a` when it was not
/// measured.
pub open spec fn budget_cell_text(observed: Option<Seq<char>>, budget: Option<Seq<char>>) -> Seq<
    char,
> {
    match observed {
        Some(o) => match budget {
            Some(b) => o + " / ≤"@ + b,
            None => o + " / —"@,
        },
        None => "n/a"@,
    }
}

/// The view of an optional string slice.
pub open spec fn opt_text(cell: Option<&str>) -> Option<Seq<char>> {
    match cell {
        Some(text) => Some(text@),
        None => None,
    }
}

/// Formats one budget-table cell from the formatted observed value and
/// budget: `observed / ≤budget` when gated, `observed / —` when
/// unbudgeted, `n/a` when unavailable.
pub fn budget_cell(observed: Option<&str>, budget: Option<&str>) -> (cell: String)
    ensures
        cell@ == budget_cell_text(opt_text(observed), opt_text(budget)),
{
    match observed {
        Some(o) => {
            let mut cell = String::from_str(o);
            match budget {
                Some(b) => {
                    cell.append(" / ≤");
                    cell.append(b);
                },
                None => {
                    cell.append(" / —");
                },
            }
            cell
        },
        None => String::from_str("n/a"),
    }
}

/// The status word of a row.
pub open spec fn status_text(pass: bool) -> Seq<char> {
    if pass {
        "PASS"@
    } else {
        "FAIL"@
    }
}

/// One row of the budget table: metric, P50 cell, P99 cell, the worst
/// regression (already formatted with its sign) followed by `%`, and the
/// status.
pub open spec fn budget_row_text(
    metric: Seq<char>,
    p50_cell: Seq<char>,
    p99_cell: Seq<char>,
    regression: Seq<char>,
    pass: bool,
) -> Seq<char> {
    "| "@ + metric + " | "@ + p50_cell + " | "@ + p99_cell + " | "@ + regression + "% | "@
        + status_text(pass) + " |"@
}

/// Renders one row (no header) as it appears in the README budget table.
pub fn budget_row(
    metric: &str,
    p50_cell: &str,
    p99_cell: &str,
    regression: &str,
    pass: bool,
) -> (row: String)
    ensures
        row@ == budget_row_text(metric@, p50_cell@, p99_cell@, regression@, pass),
{
    let mut row = String::from_str("| ");
    row.append(metric);
    row.append(" | ");
    row.append(p50_cell);
    row.append(" | ");
    row.append(p99_cell);
    row.append(" | ");
    row.append(regression);
    row.append("% | ");
    if pass {
        row.append("PASS");
    } else {
        row.append("FAIL");
    }
    row.append(" |");
    row
}

/// Header and separator rows of the budget table.
pub open spec fn budget_table_header() -> Seq<char> {
    "| Metric | P50 | P99 | Regression | Status |\n|---|---|---|---|---|"@
}

/// The budget table: the header, then each row on a line of its own.
pub open spec fn budget_table_text(rows: Seq<Seq<char>>) -> Seq<char>
    decreases rows.len(),
{
    if rows.len() == 0 {
        budget_table_header()
    } else {
        budget_table_text(rows.drop_last()) + "\n"@ + rows.last()
    }
}

/// Total length of the rows, each with the line break before it.
pub open spec fn rows_length(rows: Seq<Seq<char>>) -> nat
    decreases rows.len(),
{
    if rows.len() == 0 {
        0
    } else {
        rows_length(rows.drop_last()) + 1 + rows.last().len()
    }
}

/// Adding a row to the report adds exactly one line to the table: the
/// previous table, a line break, and the new row; with no rows the table is
/// the header and separator alone.
pub proof fn law_budget_table_one_line_per_row(rows: Seq<Seq<char>>, row: Seq<char>)
    ensures
        budget_table_text(Seq::empty()) == budget_table_header(),
        budget_table_text(rows.push(row)) == budget_table_text(rows) + "\n"@ + row,
{
    assert(rows.push(row).drop_last() =~= rows);
}

/// The table starts with the header and holds every row: its length is
/// the header's plus, for each row, the row and one line break.
pub proof fn law_budget_table_holds_every_row(rows: Seq<Seq<char>>)
    ensures
        budget_table_text(rows).len() == budget_table_header().len() + rows_length(rows),
        budget_table_text(rows).subrange(0, budget_table_header().len() as int)
            == budget_table_header(),
    decreases rows.len(),
{
    if rows.len() > 0 {
        reveal_strlit("\n");
        law_budget_table_holds_every_row(rows.drop_last());
        let before = budget_table_text(rows.drop_last());
        assert(budget_table_text(rows) == before + "\n"@ + rows.last());
        assert(budget_table_text(rows).subrange(0, budget_table_header().len() as int)
            =~= before.subrange(0, budget_table_header().len() as int));
    }
}

/// The views of a slice of strings.
pub open spec fn row_views(rows: Seq<String>) -> Seq<Seq<char>> {
    rows.map_values(|row: String| row@)
}

/// Renders the full budget table: header, separator, one line per row.
pub fn budget_table(rows: &[String]) -> (table: String)
    ensures
        table@ == budget_table_text(row_views(rows@)),
        table@.len() == budget_table_header().len() + rows_length(row_views(rows@)),
{
    let mut table = String::from_str(
        "| Metric | P50 | P99 | Regression | Status |\n|---|---|---|---|---|",
    );
    let mut i: usize = 0;
    while i < rows.len()
        invariant
            i <= rows.len(),
            table@ == budget_table_text(row_views(rows@.take(i as int))),
        decreases rows.len() - i,
    {
        proof {
            let before = row_views(rows@.take(i as int));
            let after = row_views(rows@.take(i + 1));
            assert(after.drop_last() =~= before);
            assert(after.last() == rows@[i as int]@);
        }
        table.append("\n");
        table.append(rows[i].as_str());
        i = i + 1;
    }
    proof {
        assert(rows@.take(rows@.len() as int) =~= rows@);
        law_budget_table_holds_every_row(row_views(rows@));
    }
    table
}

/// Every row passed.
pub open spec fn all_pass(passes: Seq<bool>) -> bool {
    forall|i: int| 0 <= i < passes.len() ==> #[trigger] passes[i]
}

/// Whether the report passes: every row passed.
pub fn gate_passes(passes: &[bool]) -> (pass: bool)
    ensures
        pass == all_pass(passes@),
{
    let mut i: usize = 0;
    while i < passes.len()
        invariant
            i <= passes.len(),
            forall|j: int| 0 <= j < i ==> #[trigger] passes@[j],
        decreases passes.len() - i,
    {
        if !passes[i] {
            return false;
        }
        i = i + 1;
    }
    true
}

/// The row the CI gate reports: the first failing one, or `None` when
/// every row passed.
pub fn first_failing(passes: &[bool]) -> (row: Option<usize>)
    ensures
        row is None <==> all_pass(passes@),
        row matches Some(i) ==> i < passes.len() && !passes@[i as int] && forall|j: int|
            0 <= j < i ==> #[trigger] passes@[j],
{
    let mut i: usize = 0;
    while i < passes.len()
        invariant
            i <= passes.len(),
            forall|j: int| 0 <= j < i ==> #[trigger] passes@[j],
        decreases passes.len() - i,
    {
        if !passes[i] {
            return Some(i);
        }
        i = i + 1;
    }
    None
}

/// A path component that every platform's path syntax reads the same way:
/// not empty, not `.` or `..`, and without `/`, `\\` or `:` (so neither a
/// separator, nor a Windows prefix, inside it).
pub open spec fn plain_component(c: Seq<char>) -> bool {
    &&& c.len() > 0
    &&& c != seq!['.']
    &&& c != seq!['.', '.']
    &&& forall|i: int| 0 <= i < c.len() ==> c[i] != '/' && c[i] != '\\' && c[i] != ':'
}

/// Every component is plain.
pub open spec fn all_plain(components: Seq<Seq<char>>) -> bool {
    forall|i: int| 0 <= i < components.len() ==> plain_component(#[trigger] components[i])
}

/// The components joined by `/`.
pub open spec fn joined(components: Seq<Seq<char>>) -> Seq<char>
    decreases components.len(),
{
    if components.len() == 0 {
        seq![]
    } else if components.len() == 1 {
        components[0]
    } else {
        joined(components.drop_last()) + seq!['/'] + components.last()
    }
}

/// A path written as `/`-joined plain components, led by `/` when it is
/// absolute.
pub open spec fn plain_path(components: Seq<Seq<char>>, absolute: bool) -> Seq<char> {
    if absolute {
        seq!['/'] + joined(components)
    } else {
        joined(components)
    }
}

/// The view of an optional string.
pub open spec fn opt_string(s: Option<String>) -> Option<Seq<char>> {
    match s {
        Some(text) => Some(text@),
        None => None,
    }
}

/// `dir` and `name` joined by one `/`.
pub open spec fn child(dir: Seq<char>, name: Seq<char>) -> Seq<char> {
    dir + seq!['/'] + name
}

/// A path that every platform's path syntax splits at `/` alone: no `\\`,
/// no `:` (so no Windows prefix), and no leading `//`.
pub open spec fn portable(path: Seq<char>) -> bool {
    &&& forall|i: int| 0 <= i < path.len() ==> path[i] != '\\' && path[i] != ':'
    &&& !(path.len() >= 2 && path[0] == '/' && path[1] == '/')
}

/// A directory string whose last component stands at its very end: not
/// empty, no trailing `/`, and not ending in a `/.` component (which
/// `Path::parent` would normalise away).
pub open spec fn ends_in_component(dir: Seq<char>) -> bool {
    &&& dir.len() > 0
    &&& dir.last() != '/'
    &&& !(dir.len() >= 2 && dir[dir.len() - 2] == '/' && dir.last() == '.')
}

/// The component `new` under which criterion writes a bench's latest run.
pub open spec fn new_dir() -> Seq<char> {
    seq!['n', 'e', 'w']
}

/// `Path::parent` of `path`, as an owned string.
///
/// Stated: the empty path has no parent; and for a path of `/`-joined plain
/// components (see [`plain_component`]) the parent is the path without its
/// last component (`Some("")` for one relative component, `Some("/")` for
/// one absolute component), while a path with no component (`""` or `/`)
/// has none. Further, a portable path `dir/name` with a plain last
/// component `name` has the parent `dir`, whatever components `dir` holds
/// (`.`, `..`, repeated separators), as long as `dir` ends in a component.
/// These hold on every platform. Other paths (with `\\`, prefixes, or a
/// trailing `/.`) follow the platform's syntax and are not stated.
#[verifier::external_body]
fn path_parent(path: &str) -> (parent: Option<String>)
    ensures
        path@.len() == 0 ==> parent is None,
        forall|dir: Seq<char>, name: Seq<char>|
            plain_component(name) && ends_in_component(dir) && portable(path@) && path@
                == #[trigger] child(dir, name) ==> opt_string(parent) == Some(dir),
        forall|components: Seq<Seq<char>>, absolute: bool|
            all_plain(components) && path@ == #[trigger] plain_path(components, absolute) ==> {
                &&& components.len() == 0 ==> parent is None
                &&& components.len() > 0 ==> opt_string(parent) == Some(
                    plain_path(components.drop_last(), absolute),
                )
            },
{
    match std::path::Path::new(path).parent() {
        Some(parent) => Some(parent.to_string_lossy().into_owned()),
        None => None,
    }
}

/// `Path::file_name` of `path`, as an owned string.
///
/// Stated: for a path of `/`-joined plain components the file name is the
/// last component, and a path with no component (`""` or `/`) has none.
/// Further, a portable path `dir/name` with a plain last component `name`
/// has the file name `name`, whatever `dir` is. Other paths follow the
/// platform's syntax and are not stated.
#[verifier::external_body]
fn path_file_name(path: &str) -> (name: Option<String>)
    ensures
        forall|dir: Seq<char>, last: Seq<char>|
            plain_component(last) && portable(path@) && path@ == #[trigger] child(dir, last)
                ==> opt_string(name) == Some(last),
        forall|components: Seq<Seq<char>>, absolute: bool|
            all_plain(components) && path@ == #[trigger] plain_path(components, absolute) ==> {
                &&& components.len() == 0 ==> name is None
                &&& components.len() > 0 ==> opt_string(name) == Some(components.last())
            },
{
    match std::path::Path::new(path).file_name() {
        Some(name) => Some(name.to_string_lossy().into_owned()),
        None => None,
    }
}

/// The bench name given the file name of the path's grandparent directory
/// (when the path has one): that name, or else the path itself.
pub fn bench_name_from_parts(path: &str, grandparent_name: Option<String>) -> (name: String)
    ensures
        name@ == match grandparent_name {
            Some(n) => n@,
            None => path@,
        },
{
    match grandparent_name {
        Some(n) => n,
        None => String::from_str(path),
    }
}

/// The steps of `Path::parent`, `Path::parent`, `Path::file_name` through
/// a portable `dir/<bench>/new/<file>` path all meet the wrappers' stated
/// cases.
proof fn lemma_criterion_path_steps(
    path: Seq<char>,
    dir: Seq<char>,
    bench: Seq<char>,
    file: Seq<char>,
)
    requires
        plain_component(bench),
        plain_component(file),
        portable(path),
        path == child(child(child(dir, bench), new_dir()), file),
    ensures
        ends_in_component(child(child(dir, bench), new_dir())),
        ends_in_component(child(dir, bench)),
        plain_component(new_dir()),
        portable(child(child(dir, bench), new_dir())),
        portable(child(dir, bench)),
{
    let p1 = child(dir, bench);
    let p2 = child(p1, new_dir());
    assert(new_dir()[0] != '.');
    assert(path =~= p2 + seq!['/'] + file);
    assert forall|i: int| 0 <= i < p2.len() implies p2[i] != '\\' && p2[i] != ':' by {
        assert(p2[i] == path[i]);
    }
    assert forall|i: int| 0 <= i < p1.len() implies p1[i] != '\\' && p1[i] != ':' by {
        assert(p1[i] == p2[i]);
        assert(p2[i] == path[i]);
    }
    assert(p1.len() >= 2);
    assert(p1[0] == path[0] && p1[1] == path[1]);
    assert(p2[0] == path[0] && p2[1] == path[1]);
    assert(p1.last() == bench.last());
    assert(bench.last() != '/');
    if bench.len() == 1 {
        assert(bench =~= seq![bench[0]]);
        assert(p1[p1.len() - 2] == '/');
        assert(bench[0] != '.');
    } else {
        assert(p1[p1.len() - 2] == bench[bench.len() - 2]);
        assert(bench[bench.len() - 2] != '/');
    }
    assert(p2.last() == 'w');
}

/// Infers the bench name from a `.../criterion/<bench>/new/<file>` path:
/// the final component of the path's grandparent, or the whole path when it
/// has none.
///
/// For a path of `/`-joined plain components this is the third component
/// from the end when there are at least three, and the path itself
/// otherwise; the empty path names itself. A portable path
/// `dir/<bench>/new/<file>` with plain `bench` and `file` names `bench`,
/// whatever `dir` is. Other paths follow the platform's path syntax.
pub fn bench_name_from_path(path: &str) -> (name: String)
    ensures
        path@.len() == 0 ==> name@ == path@,
        forall|dir: Seq<char>, bench: Seq<char>, file: Seq<char>|
            plain_component(bench) && plain_component(file) && portable(path@) && path@
                == #[trigger] child(child(child(dir, bench), new_dir()), file) ==> name@ == bench,
        forall|components: Seq<Seq<char>>, absolute: bool|
            all_plain(components) && path@ == #[trigger] plain_path(components, absolute)
                ==> name@ == if components.len() >= 3 {
                components[components.len() - 3]
            } else {
                path@
            },
{
    let grandparent_name = match path_parent(path) {
        Some(parent) => match path_parent(parent.as_str()) {
            Some(grandparent) => path_file_name(grandparent.as_str()),
            None => None,
        },
        None => None,
    };
    let name = bench_name_from_parts(path, grandparent_name);
    proof {
        assert forall|dir: Seq<char>, bench: Seq<char>, file: Seq<char>|
            plain_component(bench) && plain_component(file) && portable(path@) && path@
                == #[trigger] child(child(child(dir, bench), new_dir()), file) implies name@
                == bench by {
            lemma_criterion_path_steps(path@, dir, bench, file);
        }
        assert forall|components: Seq<Seq<char>>, absolute: bool|
            all_plain(components) && path@ == #[trigger] plain_path(components, absolute)
                implies name@ == if components.len() >= 3 {
                components[components.len() - 3]
            } else {
                path@
            } by {
            if components.len() > 0 {
                let c1 = components.drop_last();
                assert forall|i: int| 0 <= i < c1.len() implies plain_component(#[trigger] c1[i]) by {
                    assert(c1[i] == components[i]);
                }
                assert(plain_path(c1, absolute) == plain_path(c1, absolute));
                if c1.len() > 0 {
                    let c2 = c1.drop_last();
                    assert forall|i: int| 0 <= i < c2.len() implies plain_component(
                        #[trigger] c2[i],
                    ) by {
                        assert(c2[i] == components[i]);
                    }
                    assert(plain_path(c2, absolute) == plain_path(c2, absolute));
                    if components.len() >= 3 {
                        assert(c2.last() == components[components.len() - 3]);
                    }
                }
            }
        }
    }
    name
}

} // verus!
