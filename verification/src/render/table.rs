use comfy_table::{Cell, CellAlignment, Color, Table};
use colored::Colorize;
use vstd::prelude::*;
use vstd::string::StringExecFns;

use crate::iptext::{
    address_string, address_text, hex_char, hex_text, ipv4_text, join_groups, longest_zero_start,
    segments, zero_run,
};
use crate::model::{
    is_v4_mapped, well_known, well_known_service, BindAddress, ConnectionState, PortEntry, Protocol,
};
use crate::text::{
    contains_text, decimal, decimal_string, lemma_decimal, occurs_at, span_until, split_pieces,
};

verus! {

// ---------------------------------------------------------------------------
// Terminal styling (comfy-table and colored)
// ---------------------------------------------------------------------------

/// A comfy-table table, carried through as an opaque value.
#[verifier::external_type_specification]
#[verifier::external_body]
pub struct ExTable(Table);

/// A comfy-table cell, carried through as an opaque value.
#[verifier::external_type_specification]
#[verifier::external_body]
pub struct ExCell(Cell);

/// Horizontal alignment of a cell's text.
#[derive(Debug, Clone, Copy, PartialEq, Eq, Structural)]
pub enum Align {
    Left,
    Center,
    Right,
}

/// Foreground color of a cell.
#[derive(Debug, Clone, Copy, PartialEq, Eq, Structural)]
pub enum Tint {
    Green,
    Cyan,
    Grey,
    White,
    Yellow,
}

/// How a comfy-table cell is formatted: its own alignment (none means the
/// column's, by default left), its foreground color when it is one that
/// `Tint` names, and whether it carries any other setting (a delimiter, a
/// background color, attributes, or a foreground color `Tint` does not name).
pub struct CellFormat {
    pub align: Option<Align>,
    pub tint: Option<Tint>,
    pub other_style: bool,
}

/// What a comfy-table cell holds: its content lines and its format.
pub struct CellModel {
    pub lines: Seq<Seq<char>>,
    pub format: CellFormat,
}

/// The parts of a comfy-table table other than its rows: the header row,
/// if one is set, and the border preset (as a preset string) of a table
/// whose other settings are those `Table::new` gives (none once any other
/// setting has changed).
pub struct TableLayout {
    pub header: Option<Seq<CellModel>>,
    pub preset: Option<Seq<char>>,
}

/// The content lines of a comfy-table cell.
pub uninterp spec fn cell_lines(c: Cell) -> Seq<Seq<char>>;

/// The format of a comfy-table cell.
pub uninterp spec fn cell_format(c: Cell) -> CellFormat;

/// The data rows of a comfy-table table, in order.
pub uninterp spec fn table_rows(t: Table) -> Seq<Seq<CellModel>>;

/// The header and border preset of a comfy-table table.
pub uninterp spec fn table_layout(t: Table) -> TableLayout;

/// The text comfy-table's `Display` writes for a table with the border
/// preset `preset`, the header `header` and the rows `rows`, when no cell
/// carries a color or any other style.
pub uninterp spec fn plain_table_text(
    preset: Seq<char>,
    header: Option<Seq<CellModel>>,
    rows: Seq<Seq<CellModel>>,
) -> Seq<char>;

/// A cell's model.
pub open spec fn cell_model(c: Cell) -> CellModel {
    CellModel { lines: cell_lines(c), format: cell_format(c) }
}

/// A row's cell models.
pub open spec fn cell_models(cells: Seq<Cell>) -> Seq<CellModel> {
    cells.map_values(|c: Cell| cell_model(c))
}

/// The cell carries no color and no other style.
pub open spec fn unstyled(c: CellModel) -> bool {
    c.format.tint is None && !c.format.other_style
}

/// No cell of the rows carries a color or any other style.
pub open spec fn rows_unstyled(rows: Seq<Seq<CellModel>>) -> bool {
    forall|i: int, j: int|
        0 <= i < rows.len() && 0 <= j < rows[i].len() ==> unstyled(#[trigger] rows[i][j])
}

/// No content line of the rows holds an escape character.
pub open spec fn rows_without_escape(rows: Seq<Seq<CellModel>>) -> bool {
    forall|i: int, j: int, k: int|
        0 <= i < rows.len() && 0 <= j < rows[i].len() && 0 <= k < rows[i][j].lines.len()
            ==> has_no_escape(#[trigger] rows[i][j].lines[k])
}

/// The header as rows: none, or the one header row.
pub open spec fn header_rows(h: Option<Seq<CellModel>>) -> Seq<Seq<CellModel>> {
    match h {
        Some(r) => seq![r],
        None => Seq::empty(),
    }
}

/// comfy-table's `UTF8_FULL` border preset.
pub open spec fn utf8_full_preset() -> Seq<char> {
    "││──╞═╪╡┆╌┼├┤┬┴┌┐└┘"@
}

/// Trusted: calls comfy-table's `Table::new`. The contract claims that the
/// new table has no rows and no header, and default settings (a preset).
#[verifier::external_body]
fn new_table() -> (r: Table)
    ensures
        table_rows(r) == Seq::<Seq<CellModel>>::empty(),
        table_layout(r).header is None,
        table_layout(r).preset is Some,
{
    Table::new()
}

/// Trusted: calls comfy-table's `Table::load_preset` with its `UTF8_FULL`
/// border preset, which sets every border component. The contract claims
/// that rows and header stay, and that a table with default settings gets
/// that preset.
#[verifier::external_body]
fn use_full_borders(table: &mut Table)
    ensures
        table_rows(*final(table)) == table_rows(*old(table)),
        table_layout(*final(table)).header == table_layout(*old(table)).header,
        table_layout(*old(table)).preset is Some ==> table_layout(*final(table)).preset == Some(
            utf8_full_preset(),
        ),
{
    table.load_preset(comfy_table::presets::UTF8_FULL);
}

/// Trusted: calls comfy-table's `Table::set_header`. The contract claims that
/// the header becomes the given cells and that rows and preset stay.
#[verifier::external_body]
fn set_header_cells(table: &mut Table, cells: Vec<Cell>)
    ensures
        table_rows(*final(table)) == table_rows(*old(table)),
        table_layout(*final(table)) == (TableLayout {
            header: Some(cell_models(cells@)),
            preset: table_layout(*old(table)).preset,
        }),
{
    table.set_header(cells);
}

/// Trusted: calls comfy-table's `Table::add_row`. The contract claims that
/// the cells become the table's last row and that header and preset stay.
#[verifier::external_body]
fn add_row_cells(table: &mut Table, cells: Vec<Cell>)
    ensures
        table_rows(*final(table)) == table_rows(*old(table)).push(cell_models(cells@)),
        table_layout(*final(table)) == table_layout(*old(table)),
{
    table.add_row(cells);
}

/// A character that may stand among the parameters of a style (SGR)
/// sequence: a digit or `;`.
pub open spec fn is_sgr_param(c: char) -> bool {
    ('0' <= c && c <= '9') || c == ';'
}

/// The length of the style (SGR) sequence `ESC [ params m` at the start of
/// `s`, or 0 when `s` does not start with one.
pub open spec fn sgr_prefix_len(s: Seq<char>) -> nat {
    if s.len() >= 3 && s[0] == '\x1B' && s[1] == '[' {
        let k: int = 2int + (span_until(s.skip(2), |c: char| !is_sgr_param(c)) as int);
        if k < s.len() && s[k] == 'm' {
            (k + 1) as nat
        } else {
            0
        }
    } else {
        0
    }
}

/// `s` with every style (SGR) sequence taken out.
pub open spec fn strip_sgr(s: Seq<char>) -> Seq<char>
    decreases s.len(),
{
    if s.len() == 0 {
        s
    } else if 0 < sgr_prefix_len(s) <= s.len() {
        strip_sgr(s.skip(sgr_prefix_len(s) as int))
    } else {
        seq![s[0]] + strip_sgr(s.drop_first())
    }
}

/// A cell's model without its color.
pub open spec fn untinted(c: CellModel) -> CellModel {
    CellModel {
        lines: c.lines,
        format: CellFormat { align: c.format.align, tint: None, other_style: c.format.other_style },
    }
}

/// A row's cell models without their colors.
pub open spec fn untinted_row(r: Seq<CellModel>) -> Seq<CellModel> {
    r.map_values(|c: CellModel| untinted(c))
}

/// Rows of cell models without their colors.
pub open spec fn untinted_rows(rows: Seq<Seq<CellModel>>) -> Seq<Seq<CellModel>> {
    rows.map_values(|r: Seq<CellModel>| untinted_row(r))
}

/// A header without its colors.
pub open spec fn untinted_header(h: Option<Seq<CellModel>>) -> Option<Seq<CellModel>> {
    match h {
        Some(r) => Some(untinted_row(r)),
        None => None,
    }
}

/// No cell of the rows carries a style other than a color.
pub open spec fn rows_without_other_style(rows: Seq<Seq<CellModel>>) -> bool {
    forall|i: int, j: int|
        0 <= i < rows.len() && 0 <= j < rows[i].len() ==> !(#[trigger] rows[i][j]).format.other_style
}

/// Trusted: calls comfy-table's `Display` for `Table`. The contract claims,
/// for a table with default settings and no styled cell, that the text is a
/// function of preset, header and rows (named `plain_table_text`: the
/// arrangement is by content width and no style sequence is written), that
/// it holds no escape character when preset and cell lines hold none, and,
/// for a preset without spaces (every border drawn), that each line after a
/// newline starts with a border character of the preset (lines are joined
/// with newlines, cell lines hold none, and each line starts at the left
/// border).
/// For a table whose cells carry colors but no other style, whether the
/// colors are written depends on whether standard output is a terminal
/// (and on `NO_COLOR`); the contract claims what holds either way: when
/// preset and cell lines hold no escape character, the text with its style
/// (SGR) sequences taken out is the text of the same table without colors
/// (comfy-table lays a table out from its content alone and writes a
/// cell's color as SGR sequences around the cell's line).
#[verifier::external_body]
fn table_text(table: &Table) -> (r: String)
    ensures
        table_layout(*table).preset is Some && rows_unstyled(
            header_rows(table_layout(*table).header),
        ) && rows_unstyled(table_rows(*table)) ==> r@ == plain_table_text(
            table_layout(*table).preset->0,
            table_layout(*table).header,
            table_rows(*table),
        ),
        table_layout(*table).preset is Some && rows_unstyled(
            header_rows(table_layout(*table).header),
        ) && rows_unstyled(table_rows(*table)) && has_no_escape(table_layout(*table).preset->0)
            && rows_without_escape(
            header_rows(table_layout(*table).header),
        ) && rows_without_escape(table_rows(*table)) ==> has_no_escape(r@),
        table_layout(*table).preset is Some && rows_unstyled(
            header_rows(table_layout(*table).header),
        ) && rows_unstyled(table_rows(*table)) && !table_layout(*table).preset->0.contains(' ')
            ==> forall|i: int|
            #![trigger r@[i]]
            0 <= i < r@.len() - 1 && r@[i] == '\n' ==> table_layout(*table).preset->0.contains(
                r@[i + 1],
            ),
        table_layout(*table).preset is Some && rows_without_other_style(
            header_rows(table_layout(*table).header),
        ) && rows_without_other_style(table_rows(*table)) && has_no_escape(
            table_layout(*table).preset->0,
        ) && rows_without_escape(header_rows(table_layout(*table).header)) && rows_without_escape(
            table_rows(*table),
        ) ==> strip_sgr(r@) == plain_table_text(
            table_layout(*table).preset->0,
            untinted_header(table_layout(*table).header),
            untinted_rows(table_rows(*table)),
        ),
{
    table.to_string()
}

/// Trusted: calls comfy-table's `Cell::new` with `text`. The contract claims
/// that the cell's lines are `text` split at each newline, with no format.
#[verifier::external_body]
fn new_cell(text: &str) -> (r: Cell)
    ensures
        cell_lines(r) == split_pieces(text@, '\n'),
        cell_format(r) == (CellFormat { align: None, tint: None, other_style: false }),
{
    Cell::new(text)
}

/// Trusted: calls comfy-table's `Cell::set_alignment` with the alignment
/// that `align` names. The contract claims that the cell keeps its lines
/// and the rest of its format and gets that alignment.
#[verifier::external_body]
fn align_cell(cell: Cell, align: Align) -> (r: Cell)
    ensures
        cell_lines(r) == cell_lines(cell),
        cell_format(r) == (CellFormat {
            align: Some(align),
            tint: cell_format(cell).tint,
            other_style: cell_format(cell).other_style,
        }),
{
    cell.set_alignment(match align {
        Align::Left => CellAlignment::Left,
        Align::Center => CellAlignment::Center,
        Align::Right => CellAlignment::Right,
    })
}

/// Trusted: calls comfy-table's `Cell::fg` with the color that `tint`
/// names. The contract claims that the cell keeps its lines and alignment,
/// gets that color, and gets no other style that it did not have.
#[verifier::external_body]
fn tint_cell(cell: Cell, tint: Tint) -> (r: Cell)
    ensures
        cell_lines(r) == cell_lines(cell),
        cell_format(r).align == cell_format(cell).align,
        cell_format(r).tint == Some(tint),
        !cell_format(cell).other_style ==> !cell_format(r).other_style,
{
    cell.fg(match tint {
        Tint::Green => Color::Green,
        Tint::Cyan => Color::Cyan,
        Tint::Grey => Color::Grey,
        Tint::White => Color::White,
        Tint::Yellow => Color::Yellow,
    })
}

/// No character of `s` is the escape character that starts a terminal
/// style sequence.
pub open spec fn has_no_escape(s: Seq<char>) -> bool {
    forall|i: int| 0 <= i < s.len() ==> #[trigger] s[i] != '\x1B'
}

/// `r` is `s` as colored writes it in the style with the SGR code `code`:
/// `s` unchanged when colors are off, else `s` between the style's escape
/// sequence and the reset sequence.
pub open spec fn styled_as(r: Seq<char>, s: Seq<char>, code: Seq<char>) -> bool {
    r == s || r == "\x1B["@ + code + "m"@ + s + "\x1B[0m"@
}

/// Trusted: calls colored's `Colorize::green` and formats the result. The
/// contract claims, for a text without escape characters, that the result
/// is the text itself or the text wrapped in the green style (`ESC[32m`)
/// and the reset sequence; which of the two depends on the environment
/// (`NO_COLOR`, `CLICOLOR`, a terminal on standard output) and is not stated.
#[verifier::external_body]
fn green_text(s: &str) -> (r: String)
    ensures
        has_no_escape(s@) ==> styled_as(r@, s@, "32"@),
{
    s.green().to_string()
}

/// Trusted: calls colored's `Colorize::yellow` and formats the result. The
/// contract claims, for a text without escape characters, that the result
/// is the text itself or the text wrapped in the yellow style (`ESC[33m`)
/// and the reset sequence; which of the two depends on the environment.
#[verifier::external_body]
fn yellow_text(s: &str) -> (r: String)
    ensures
        has_no_escape(s@) ==> styled_as(r@, s@, "33"@),
{
    s.yellow().to_string()
}

/// Trusted: calls colored's `Colorize::dimmed` and formats the result. The
/// contract claims, for a text without escape characters, that the result
/// is the text itself or the text wrapped in the dimmed style (`ESC[2m`)
/// and the reset sequence; which of the two depends on the environment.
#[verifier::external_body]
fn dimmed_text(s: &str) -> (r: String)
    ensures
        has_no_escape(s@) ==> styled_as(r@, s@, "2"@),
{
    s.dimmed().to_string()
}

} // verus!
verus! {

// ---------------------------------------------------------------------------
// What the table shows
// ---------------------------------------------------------------------------

/// Renders entries as a table with a summary.
pub struct TableRenderer;

/// The text, alignment and color of one cell.
pub struct CellSpec {
    pub text: String,
    pub align: Align,
    pub tint: Option<Tint>,
}

/// What a cell holds, with its text as characters.
pub open spec fn cell_view(c: CellSpec) -> (Seq<char>, Align, Option<Tint>) {
    (c.text@, c.align, c.tint)
}

/// The views of a row of cells.
pub open spec fn row_view(r: Seq<CellSpec>) -> Seq<(Seq<char>, Align, Option<Tint>)> {
    r.map_values(|c: CellSpec| cell_view(c))
}

/// The PORT column: the port, and the well-known service in brackets.
pub open spec fn port_label(port: u16) -> Seq<char> {
    match well_known(port) {
        Some(s) => decimal(port as nat) + " ("@ + s + ")"@,
        None => decimal(port as nat),
    }
}

/// The BIND column: the address, marked with a warning sign when it is
/// bound to all interfaces.
pub open spec fn bind_label(e: PortEntry) -> Seq<char> {
    if e.is_public {
        address_text(e.bind_address) + " ⚠"@
    } else {
        address_text(e.bind_address)
    }
}

/// The PID column: the process id, or `-` when it is not known.
pub open spec fn pid_label(pid: Option<u32>) -> Seq<char> {
    match pid {
        Some(p) => decimal(p as nat),
        None => "-"@,
    }
}

/// The PROCESS column: the process name, or `-` when it is not known.
pub open spec fn process_label(e: PortEntry) -> Seq<char> {
    match e.process_name {
        Some(n) => n@,
        None => "-"@,
    }
}

/// The color of the STATE column.
pub open spec fn state_tint(s: ConnectionState) -> Tint {
    match s {
        ConnectionState::Listen => Tint::Green,
        ConnectionState::Established => Tint::Cyan,
        ConnectionState::TimeWait => Tint::Grey,
        _ => Tint::White,
    }
}

/// The cells of an entry's row; colors only when `no_color` is off.
pub open spec fn row_cells(e: PortEntry, no_color: bool) -> Seq<(Seq<char>, Align, Option<Tint>)> {
    seq![
        (port_label(e.port), Align::Right, None),
        (e.protocol.text(), Align::Center, None),
        (e.state.text(), Align::Center, if no_color { None } else { Some(state_tint(e.state)) }),
        (pid_label(e.pid), Align::Right, None),
        (process_label(e), Align::Left, None),
        (bind_label(e), Align::Left, if no_color {
            None
        } else if e.is_public {
            Some(Tint::Yellow)
        } else {
            Some(Tint::Grey)
        }),
    ]
}

/// The header row.
pub open spec fn header_cells() -> Seq<(Seq<char>, Align, Option<Tint>)> {
    seq![
        ("PORT"@, Align::Right, None),
        ("PROTO"@, Align::Center, None),
        ("STATE"@, Align::Center, None),
        ("PID"@, Align::Right, None),
        ("PROCESS"@, Align::Left, None),
        ("BIND"@, Align::Left, None),
    ]
}

/// How many of the entries are bound to all interfaces.
pub open spec fn public_count(s: Seq<PortEntry>) -> nat
    decreases s.len(),
{
    if s.len() == 0 {
        0
    } else {
        public_count(s.drop_last()) + if s.last().is_public {
            1nat
        } else {
            0nat
        }
    }
}

/// The number of warnings is the number of entries flagged public,
/// whatever else they hold; there is one exactly when some entry is
/// flagged public.
pub proof fn law_warning_count(s: Seq<PortEntry>)
    ensures
        public_count(s) == s.filter(|e: PortEntry| e.is_public).len(),
        public_count(s) > 0 <==> exists|i: int| 0 <= i < s.len() && (#[trigger] s[i]).is_public,
    decreases s.len(),
{
    let pred = |e: PortEntry| e.is_public;
    if s.len() == 0 {
        reveal(Seq::filter);
    } else {
        let t = s.drop_last();
        let x = s.last();
        law_warning_count(t);
        assert(t.push(x) =~= s);
        t.lemma_filter_push(x, pred);
        if exists|i: int| 0 <= i < t.len() && (#[trigger] t[i]).is_public {
            let i = choose|i: int| 0 <= i < t.len() && (#[trigger] t[i]).is_public;
            assert(s[i] == t[i]);
        }
        if exists|i: int| 0 <= i < s.len() && (#[trigger] s[i]).is_public {
            let i = choose|i: int| 0 <= i < s.len() && (#[trigger] s[i]).is_public;
            if i < t.len() {
                assert(t[i] == s[i]);
            }
        }
    }
}

/// An `s` for a count other than one.
pub open spec fn plural(n: nat) -> Seq<char> {
    if n == 1 {
        Seq::empty()
    } else {
        "s"@
    }
}

/// The line that explains the warning sign, when there is a warning.
pub open spec fn footer_text(warnings: nat) -> Seq<char> {
    if warnings > 0 {
        "\n ⚠ = bound to all interfaces (internet-accessible)"@
    } else {
        Seq::empty()
    }
}

/// The summary: how many ports are in use, and how many warnings there are.
pub open spec fn summary_text(ports: nat, warnings: nat) -> Seq<char> {
    "\n\n "@ + decimal(ports) + " port"@ + plural(ports) + " in use"@ + if warnings > 0 {
        " · "@ + decimal(warnings) + " warning"@ + plural(warnings)
    } else {
        Seq::empty()
    }
}

fn cell(text: String, align: Align, tint: Option<Tint>) -> (r: CellSpec)
    ensures
        cell_view(r) == (text@, align, tint),
{
    CellSpec { text, align, tint }
}

/// The PORT column's text.
pub fn port_text(port: u16) -> (r: String)
    ensures
        r@ == port_label(port),
{
    let mut s = decimal_string(port as u64);
    match well_known_service(port) {
        Some(svc) => {
            s.append(" (");
            s.append(svc);
            s.append(")");
        },
        None => {},
    }
    s
}

/// The cells of an entry's row.
pub fn entry_row(e: &PortEntry, no_color: bool) -> (r: Vec<CellSpec>)
    ensures
        row_view(r@) == row_cells(*e, no_color),
{
    let mut bind = address_string(&e.bind_address);
    if e.is_public {
        bind.append(" ⚠");
    }
    let pid = match e.pid {
        Some(p) => decimal_string(p as u64),
        None => String::from_str("-"),
    };
    let process = match &e.process_name {
        Some(n) => n.clone(),
        None => String::from_str("-"),
    };
    let state_tint = if no_color {
        None
    } else {
        Some(
            match e.state {
                ConnectionState::Listen => Tint::Green,
                ConnectionState::Established => Tint::Cyan,
                ConnectionState::TimeWait => Tint::Grey,
                _ => Tint::White,
            },
        )
    };
    let bind_tint = if no_color {
        None
    } else if e.is_public {
        Some(Tint::Yellow)
    } else {
        Some(Tint::Grey)
    };
    let mut row: Vec<CellSpec> = Vec::new();
    row.push(cell(port_text(e.port), Align::Right, None));
    row.push(cell(String::from_str(e.protocol.as_str()), Align::Center, None));
    row.push(cell(String::from_str(e.state.as_str()), Align::Center, state_tint));
    row.push(cell(pid, Align::Right, None));
    row.push(cell(process, Align::Left, None));
    row.push(cell(bind, Align::Left, bind_tint));
    assert(row_view(row@) =~= row_cells(*e, no_color));
    row
}

/// The header row's cells.
pub fn header_row() -> (r: Vec<CellSpec>)
    ensures
        row_view(r@) == header_cells(),
{
    let mut row: Vec<CellSpec> = Vec::new();
    row.push(cell(String::from_str("PORT"), Align::Right, None));
    row.push(cell(String::from_str("PROTO"), Align::Center, None));
    row.push(cell(String::from_str("STATE"), Align::Center, None));
    row.push(cell(String::from_str("PID"), Align::Right, None));
    row.push(cell(String::from_str("PROCESS"), Align::Left, None));
    row.push(cell(String::from_str("BIND"), Align::Left, None));
    assert(row_view(row@) =~= header_cells());
    row
}

/// The number of entries bound to all interfaces.
pub fn warning_count(entries: &[PortEntry]) -> (r: usize)
    ensures
        r == public_count(entries@),
{
    let mut count: usize = 0;
    let mut i: usize = 0;
    while i < entries.len()
        invariant
            i <= entries@.len(),
            count <= i,
            count == public_count(entries@.take(i as int)),
        decreases entries@.len() - i,
    {
        assert(entries@.take(i + 1).drop_last() =~= entries@.take(i as int));
        if entries[i].is_public {
            count += 1;
        }
        i += 1;
    }
    assert(entries@.take(i as int) =~= entries@);
    count
}

/// The warning explanation line (empty when there is no warning).
pub fn footer_line(warnings: usize) -> (r: String)
    ensures
        r@ == footer_text(warnings as nat),
{
    if warnings > 0 {
        String::from_str("\n ⚠ = bound to all interfaces (internet-accessible)")
    } else {
        String::new()
    }
}

/// The summary line.
pub fn summary_line(ports: usize, warnings: usize) -> (r: String)
    ensures
        r@ == summary_text(ports as nat, warnings as nat),
{
    let mut s = String::from_str("\n\n ");
    s.append(decimal_string(ports as u64).as_str());
    s.append(" port");
    if ports != 1 {
        s.append("s");
    }
    s.append(" in use");
    if warnings > 0 {
        s.append(" · ");
        s.append(decimal_string(warnings as u64).as_str());
        s.append(" warning");
        if warnings != 1 {
            s.append("s");
        }
    }
    proof {
        assert(Seq::<char>::empty() + "s"@ =~= "s"@);
    }
    s
}

/// The model of the comfy-table cell made for a cell description: its text
/// split at newlines, its alignment, its tint, and no other style.
pub open spec fn described_cell(c: (Seq<char>, Align, Option<Tint>)) -> CellModel {
    CellModel {
        lines: split_pieces(c.0, '\n'),
        format: CellFormat { align: Some(c.1), tint: c.2, other_style: false },
    }
}

/// The models of the cells made for a row of descriptions.
pub open spec fn described_row(r: Seq<(Seq<char>, Align, Option<Tint>)>) -> Seq<CellModel> {
    r.map_values(|c: (Seq<char>, Align, Option<Tint>)| described_cell(c))
}

/// The table rows made for the entries, one per entry, in order.
pub open spec fn entry_rows(s: Seq<PortEntry>, no_color: bool) -> Seq<Seq<CellModel>> {
    s.map_values(|e: PortEntry| described_row(row_cells(e, no_color)))
}

/// The comfy-table cells for a row: one per cell description, in order,
/// each made from its text, aligned, and tinted when it has a tint.
fn styled_cells(row: Vec<CellSpec>) -> (r: Vec<Cell>)
    ensures
        r@.len() == row@.len(),
        cell_models(r@) == described_row(row_view(row@)),
{
    let mut cells: Vec<Cell> = Vec::new();
    let ghost orig = row@;
    for c in it: row.into_iter()
        invariant
            it.seq() == orig,
            cells@.len() == it.index(),
            forall|k: int|
                0 <= k < it.index() ==> cell_model(#[trigger] cells@[k]) == described_cell(
                    cell_view(orig[k]),
                ),
    {
        let ghost k = it.index();
        let mut made = align_cell(new_cell(c.text.as_str()), c.align);
        if let Some(t) = c.tint {
            made = tint_cell(made, t);
        }
        assert(c == orig[k as int]);
        cells.push(made);
    }
    assert(cell_models(cells@) =~= described_row(row_view(orig)));
    cells
}

proof fn lemma_no_escape_add(a: Seq<char>, b: Seq<char>)
    requires
        has_no_escape(a),
        has_no_escape(b),
    ensures
        has_no_escape(a + b),
{
    assert forall|i: int| 0 <= i < (a + b).len() implies #[trigger] (a + b)[i] != '\x1B' by {
        if i < a.len() {
            assert((a + b)[i] == a[i]);
        } else {
            assert((a + b)[i] == b[i - a.len()]);
        }
    }
}

proof fn lemma_decimal_no_escape(n: nat)
    ensures
        has_no_escape(decimal(n)),
{
    lemma_decimal(n);
    assert forall|i: int| 0 <= i < decimal(n).len() implies #[trigger] decimal(n)[i] != '\x1B' by {
        assert('0' <= decimal(n)[i] <= '9');
    }
}

/// The warning explanation holds no escape character.
proof fn lemma_footer_no_escape(warnings: nat)
    ensures
        has_no_escape(footer_text(warnings)),
{
    reveal_strlit("\n ⚠ = bound to all interfaces (internet-accessible)");
}

/// The summary holds no escape character.
proof fn lemma_summary_no_escape(ports: nat, warnings: nat)
    ensures
        has_no_escape(summary_text(ports, warnings)),
{
    reveal_strlit("\n\n ");
    reveal_strlit(" port");
    reveal_strlit("s");
    reveal_strlit(" in use");
    reveal_strlit(" · ");
    reveal_strlit(" warning");
    assert(has_no_escape(Seq::<char>::empty()));
    lemma_decimal_no_escape(ports);
    lemma_decimal_no_escape(warnings);
    let head = "\n\n "@ + decimal(ports) + " port"@ + plural(ports) + " in use"@;
    lemma_no_escape_add("\n\n "@, decimal(ports));
    lemma_no_escape_add("\n\n "@ + decimal(ports), " port"@);
    lemma_no_escape_add("\n\n "@ + decimal(ports) + " port"@, plural(ports));
    lemma_no_escape_add("\n\n "@ + decimal(ports) + " port"@ + plural(ports), " in use"@);
    if warnings > 0 {
        let tail = " · "@ + decimal(warnings) + " warning"@ + plural(warnings);
        lemma_no_escape_add(" · "@, decimal(warnings));
        lemma_no_escape_add(" · "@ + decimal(warnings), " warning"@);
        lemma_no_escape_add(" · "@ + decimal(warnings) + " warning"@, plural(warnings));
        lemma_no_escape_add(head, tail);
    } else {
        lemma_no_escape_add(head, Seq::<char>::empty());
    }
}

proof fn lemma_char_no_escape(s: Seq<char>, c: char)
    requires
        has_no_escape(s),
        c != '\x1B',
    ensures
        has_no_escape(s.push(c)),
{
    lemma_no_escape_add(s, seq![c]);
    assert(s + seq![c] =~= s.push(c));
}

/// The pieces of a text without escape characters hold none.
proof fn lemma_pieces_no_escape(s: Seq<char>, sep: char)
    requires
        has_no_escape(s),
    ensures
        forall|k: int|
            0 <= k < split_pieces(s, sep).len() ==> has_no_escape(#[trigger] split_pieces(s, sep)[k]),
        split_pieces(s, sep).len() > 0,
    decreases s.len(),
{
    if s.len() > 0 {
        let t = s.drop_last();
        assert forall|i: int| 0 <= i < t.len() implies #[trigger] t[i] != '\x1B' by {
            assert(t[i] == s[i]);
        }
        lemma_pieces_no_escape(t, sep);
        let p = split_pieces(t, sep);
        assert(has_no_escape(Seq::<char>::empty()));
        if s.last() != sep {
            assert(s[s.len() - 1] != '\x1B');
            lemma_char_no_escape(p.last(), s.last());
        }
    }
}

/// Well-known service names hold no escape character.
proof fn lemma_service_no_escape(port: u16)
    ensures
        well_known(port) matches Some(svc) ==> has_no_escape(svc),
{
    reveal_strlit("ftp-data");
    reveal_strlit("ftp");
    reveal_strlit("ssh");
    reveal_strlit("telnet");
    reveal_strlit("smtp");
    reveal_strlit("dns");
    reveal_strlit("dhcp-server");
    reveal_strlit("dhcp-client");
    reveal_strlit("http");
    reveal_strlit("pop3");
    reveal_strlit("ntp");
    reveal_strlit("imap");
    reveal_strlit("snmp");
    reveal_strlit("ldap");
    reveal_strlit("https");
    reveal_strlit("smb");
    reveal_strlit("smtps");
    reveal_strlit("submission");
    reveal_strlit("ipp");
    reveal_strlit("imaps");
    reveal_strlit("pop3s");
    reveal_strlit("mssql");
    reveal_strlit("oracle");
    reveal_strlit("mysql");
    reveal_strlit("rdp");
    reveal_strlit("postgresql");
    reveal_strlit("amqp");
    reveal_strlit("vnc");
    reveal_strlit("redis");
    reveal_strlit("http-alt");
    reveal_strlit("https-alt");
    reveal_strlit("prometheus");
    reveal_strlit("elasticsearch");
    reveal_strlit("memcached");
    reveal_strlit("mongodb");
}

/// Protocol and state names hold no escape character.
proof fn lemma_names_no_escape(p: Protocol, st: ConnectionState)
    ensures
        has_no_escape(p.text()),
        has_no_escape(st.text()),
{
    reveal_strlit("TCP");
    reveal_strlit("UDP");
    reveal_strlit("LISTEN");
    reveal_strlit("ESTABLISHED");
    reveal_strlit("TIME_WAIT");
    reveal_strlit("CLOSE_WAIT");
    reveal_strlit("SYN_SENT");
    reveal_strlit("SYN_RECV");
    reveal_strlit("FIN_WAIT1");
    reveal_strlit("FIN_WAIT2");
    reveal_strlit("CLOSING");
    reveal_strlit("LAST_ACK");
    reveal_strlit("UNKNOWN");
}

proof fn lemma_hex_no_escape(n: nat)
    ensures
        has_no_escape(hex_text(n)),
    decreases n,
{
    if n < 16 {
        assert(hex_text(n)[0] == hex_char(n as int));
    } else {
        lemma_hex_no_escape(n / 16);
        lemma_char_no_escape(hex_text(n / 16), hex_char((n % 16) as int));
    }
}

proof fn lemma_groups_no_escape(g: Seq<int>)
    ensures
        has_no_escape(join_groups(g)),
    decreases g.len(),
{
    if g.len() == 1 {
        lemma_hex_no_escape(g[0] as nat);
    } else if g.len() > 1 {
        lemma_groups_no_escape(g.drop_last());
        lemma_hex_no_escape(g.last() as nat);
        lemma_char_no_escape(join_groups(g.drop_last()), ':');
        assert(join_groups(g.drop_last()) + seq![':'] =~= join_groups(g.drop_last()).push(':'));
        lemma_no_escape_add(join_groups(g.drop_last()) + seq![':'], hex_text(g.last() as nat));
    }
}

proof fn lemma_ipv4_no_escape(o: Seq<u8>)
    ensures
        has_no_escape(ipv4_text(o)),
{
    lemma_decimal_no_escape(o[0] as nat);
    lemma_decimal_no_escape(o[1] as nat);
    lemma_decimal_no_escape(o[2] as nat);
    lemma_decimal_no_escape(o[3] as nat);
    let d = seq!['.'];
    assert(has_no_escape(d));
    let a = decimal(o[0] as nat) + d;
    lemma_no_escape_add(decimal(o[0] as nat), d);
    lemma_no_escape_add(a, decimal(o[1] as nat));
    lemma_no_escape_add(a + decimal(o[1] as nat), d);
    lemma_no_escape_add(a + decimal(o[1] as nat) + d, decimal(o[2] as nat));
    lemma_no_escape_add(a + decimal(o[1] as nat) + d + decimal(o[2] as nat), d);
    lemma_no_escape_add(a + decimal(o[1] as nat) + d + decimal(o[2] as nat) + d, decimal(o[3] as nat));
}

/// The text of an address holds no escape character.
proof fn lemma_address_no_escape(a: BindAddress)
    ensures
        has_no_escape(address_text(a)),
{
    match a {
        BindAddress::V4(o) => {
            lemma_ipv4_no_escape(o@);
        },
        BindAddress::V6(o) => {
            let o = o@;
            if is_v4_mapped(o) {
                let pre = seq![':', ':', 'f', 'f', 'f', 'f', ':'];
                assert(has_no_escape(pre));
                lemma_ipv4_no_escape(o.subrange(12, 16));
                lemma_no_escape_add(pre, ipv4_text(o.subrange(12, 16)));
            } else {
                let g = segments(o);
                let start = longest_zero_start(g, 0, 0);
                let len = zero_run(g, start) as int;
                lemma_groups_no_escape(g);
                lemma_groups_no_escape(g.take(start));
                lemma_groups_no_escape(g.skip(start + len));
                let cc = seq![':', ':'];
                assert(has_no_escape(cc));
                lemma_no_escape_add(join_groups(g.take(start)), cc);
                lemma_no_escape_add(join_groups(g.take(start)) + cc, join_groups(g.skip(start + len)));
            }
        },
    }
}

/// The cell texts of an entry's row hold no escape character when its
/// process name holds none.
proof fn lemma_row_no_escape(e: PortEntry, no_color: bool)
    requires
        e.process_name matches Some(n) ==> has_no_escape(n@),
    ensures
        forall|j: int|
            0 <= j < row_cells(e, no_color).len() ==> has_no_escape(#[trigger] row_cells(e, no_color)[j].0),
{
    lemma_service_no_escape(e.port);
    lemma_names_no_escape(e.protocol, e.state);
    lemma_decimal_no_escape(e.port as nat);
    reveal_strlit(" (");
    reveal_strlit(")");
    reveal_strlit("-");
    reveal_strlit(" ⚠");
    if let Some(svc) = well_known(e.port) {
        lemma_no_escape_add(decimal(e.port as nat), " ("@);
        lemma_no_escape_add(decimal(e.port as nat) + " ("@, svc);
        lemma_no_escape_add(decimal(e.port as nat) + " ("@ + svc, ")"@);
    }
    if let Some(p) = e.pid {
        lemma_decimal_no_escape(p as nat);
    }
    lemma_address_no_escape(e.bind_address);
    lemma_no_escape_add(address_text(e.bind_address), " ⚠"@);
    assert(has_no_escape(port_label(e.port)));
    assert(has_no_escape(pid_label(e.pid)));
    assert(has_no_escape(process_label(e)));
    assert(has_no_escape(bind_label(e)));
}

/// The lines of the cells made for a row of escape-free texts hold no escape.
proof fn lemma_described_no_escape(r: Seq<(Seq<char>, Align, Option<Tint>)>)
    requires
        forall|j: int| 0 <= j < r.len() ==> has_no_escape(#[trigger] r[j].0),
    ensures
        forall|j: int, k: int|
            0 <= j < described_row(r).len() && 0 <= k < described_row(r)[j].lines.len()
                ==> has_no_escape(#[trigger] described_row(r)[j].lines[k]),
{
    assert forall|j: int, k: int|
        0 <= j < described_row(r).len() && 0 <= k < described_row(r)[j].lines.len()
            implies has_no_escape(#[trigger] described_row(r)[j].lines[k]) by {
        assert(has_no_escape(r[j].0));
        lemma_pieces_no_escape(r[j].0, '\n');
        assert(described_row(r)[j].lines == split_pieces(r[j].0, '\n'));
    }
}

/// The entry's process name, if any, holds no escape character.
pub open spec fn name_without_escape(e: PortEntry) -> bool {
    match e.process_name {
        Some(n) => has_no_escape(n@),
        None => true,
    }
}

/// Without colors, the borders, the header and the rows of entries whose
/// process names hold no escape character hold none either.
proof fn lemma_plain_table_no_escape(s: Seq<PortEntry>, no_color: bool)
    requires
        forall|i: int| 0 <= i < s.len() ==> name_without_escape(#[trigger] s[i]),
    ensures
        has_no_escape(utf8_full_preset()),
        rows_without_escape(header_rows(Some(described_row(header_cells())))),
        rows_without_escape(entry_rows(s, no_color)),
{
    reveal_strlit("││──╞═╪╡┆╌┼├┤┬┴┌┐└┘");
    reveal_strlit("PORT");
    reveal_strlit("PROTO");
    reveal_strlit("STATE");
    reveal_strlit("PID");
    reveal_strlit("PROCESS");
    reveal_strlit("BIND");
    assert forall|j: int| 0 <= j < header_cells().len() implies has_no_escape(
        #[trigger] header_cells()[j].0,
    ) by {}
    lemma_described_no_escape(header_cells());
    let h = header_rows(Some(described_row(header_cells())));
    assert forall|i: int, j: int, k: int|
        0 <= i < h.len() && 0 <= j < h[i].len() && 0 <= k < h[i][j].lines.len() implies has_no_escape(
        #[trigger] h[i][j].lines[k],
    ) by {
        assert(h[i] == described_row(header_cells()));
    }
    let rows = entry_rows(s, no_color);
    assert forall|i: int, j: int, k: int|
        0 <= i < rows.len() && 0 <= j < rows[i].len() && 0 <= k < rows[i][j].lines.len()
            implies has_no_escape(#[trigger] rows[i][j].lines[k]) by {
        assert(name_without_escape(s[i]));
        lemma_row_no_escape(s[i], no_color);
        lemma_described_no_escape(row_cells(s[i], no_color));
        assert(rows[i] == described_row(row_cells(s[i], no_color)));
    }
}

/// Without colors, no cell of the header or of the entries' rows is styled.
proof fn lemma_plain_rows(s: Seq<PortEntry>)
    ensures
        rows_unstyled(header_rows(Some(described_row(header_cells())))),
        rows_unstyled(entry_rows(s, true)),
{
    assert forall|i: int, j: int|
        0 <= i < header_rows(Some(described_row(header_cells()))).len() && 0 <= j < header_rows(
            Some(described_row(header_cells())),
        )[i].len() implies unstyled(
        #[trigger] header_rows(Some(described_row(header_cells())))[i][j],
    ) by {
        assert(header_rows(Some(described_row(header_cells())))[i] == described_row(
            header_cells(),
        ));
    }
    assert forall|i: int, j: int|
        0 <= i < entry_rows(s, true).len() && 0 <= j < entry_rows(s, true)[i].len() implies unstyled(
        #[trigger] entry_rows(s, true)[i][j],
    ) by {
        assert(entry_rows(s, true)[i] == described_row(row_cells(s[i], true)));
    }
}

/// The warning explanation line (for some warnings).
pub open spec fn warning_explanation() -> Seq<char> {
    "\n ⚠ = bound to all interfaces (internet-accessible)"@
}

proof fn lemma_no_newline_add(a: Seq<char>, b: Seq<char>)
    requires
        forall|i: int| 0 <= i < a.len() ==> #[trigger] a[i] != '\n',
        forall|i: int| 0 <= i < b.len() ==> #[trigger] b[i] != '\n',
    ensures
        forall|i: int| 0 <= i < (a + b).len() ==> #[trigger] (a + b)[i] != '\n',
{
    assert forall|i: int| 0 <= i < (a + b).len() implies #[trigger] (a + b)[i] != '\n' by {
        if i < a.len() {
            assert((a + b)[i] == a[i]);
        } else {
            assert((a + b)[i] == b[i - a.len()]);
        }
    }
}

/// After a table text whose newlines are each followed by a border
/// character (none a space), the warning explanation occurs in the output
/// exactly when there is a warning.
proof fn lemma_explanation_only_when_warned(t: Seq<char>, preset: Seq<char>, n: nat, w: nat)
    requires
        !preset.contains(' '),
        forall|i: int|
            #![trigger t[i]]
            0 <= i < t.len() - 1 && t[i] == '\n' ==> preset.contains(t[i + 1]),
    ensures
        contains_text(t + footer_text(w) + summary_text(n, w), warning_explanation()) <==> w > 0,
{
    reveal_strlit("\n ⚠ = bound to all interfaces (internet-accessible)");
    let f = warning_explanation();
    let r = t + footer_text(w) + summary_text(n, w);
    if w > 0 {
        assert(r.subrange(t.len() as int, t.len() as int + f.len()) =~= f);
        assert(occurs_at(r, f, t.len() as int));
    } else {
        reveal_strlit("\n\n ");
        reveal_strlit(" port");
        reveal_strlit("s");
        reveal_strlit(" in use");
        let head = "\n\n "@;
        let tail = decimal(n) + " port"@ + plural(n) + " in use"@;
        let sm = summary_text(n, w);
        assert(sm =~= head + tail);
        assert(footer_text(w) =~= Seq::<char>::empty());
        assert(r =~= t + head + tail);
        lemma_decimal(n);
        assert forall|i: int| 0 <= i < decimal(n).len() implies #[trigger] decimal(n)[i] != '\n' by {
            assert('0' <= decimal(n)[i] <= '9');
        }
        assert(forall|i: int| 0 <= i < " port"@.len() ==> #[trigger] " port"@[i] != '\n');
        assert(forall|i: int| 0 <= i < plural(n).len() ==> #[trigger] plural(n)[i] != '\n');
        assert(forall|i: int| 0 <= i < " in use"@.len() ==> #[trigger] " in use"@[i] != '\n');
        lemma_no_newline_add(decimal(n), " port"@);
        lemma_no_newline_add(decimal(n) + " port"@, plural(n));
        lemma_no_newline_add(decimal(n) + " port"@ + plural(n), " in use"@);
        assert forall|i: int| !occurs_at(r, f, i) by {
            if occurs_at(r, f, i) {
                let sub = r.subrange(i, i + f.len());
                assert(sub[0] == r[i] && sub[1] == r[i + 1] && sub[2] == r[i + 2]);
                assert(r[i] == '\n' && r[i + 1] == ' ' && r[i + 2] == '⚠');
                let tl = t.len() as int;
                if i + 1 < tl {
                    assert(r[i] == t[i] && r[i + 1] == t[i + 1]);
                    assert(preset.contains(t[i + 1]));
                } else if i + 1 == tl {
                    assert(r[i + 1] == head[0]);
                } else if i - tl < 3 {
                    if i - tl == 0 {
                        assert(r[i + 1] == head[1]);
                    } else if i - tl == 1 {
                        assert(r[i + 2] == tail[0]);
                        assert(tail[0] == decimal(n)[0]);
                        assert('0' <= decimal(n)[0] <= '9');
                    } else {
                        assert(r[i] == head[2]);
                    }
                } else {
                    assert(r[i] == tail[i - tl - 3]);
                }
            }
        }
    }
}

/// The cells made for the header and the entries carry no style other than
/// a color, and without their colors they are the cells made without colors.
proof fn lemma_colored_rows(s: Seq<PortEntry>, no_color: bool)
    ensures
        rows_without_other_style(header_rows(Some(described_row(header_cells())))),
        rows_without_other_style(entry_rows(s, no_color)),
        untinted_header(Some(described_row(header_cells()))) == Some(
            described_row(header_cells()),
        ),
        untinted_rows(entry_rows(s, no_color)) == entry_rows(s, true),
{
    let h = header_rows(Some(described_row(header_cells())));
    assert forall|i: int, j: int| 0 <= i < h.len() && 0 <= j < h[i].len() implies !(
    #[trigger] h[i][j]).format.other_style by {
        assert(h[i] == described_row(header_cells()));
    }
    let rows = entry_rows(s, no_color);
    assert forall|i: int, j: int| 0 <= i < rows.len() && 0 <= j < rows[i].len() implies !(
    #[trigger] rows[i][j]).format.other_style by {
        assert(rows[i] == described_row(row_cells(s[i], no_color)));
    }
    assert(untinted_row(described_row(header_cells())) =~= described_row(header_cells()));
    assert forall|i: int| 0 <= i < s.len() implies #[trigger] untinted_rows(rows)[i] == entry_rows(
        s,
        true,
    )[i] by {
        assert(untinted_row(described_row(row_cells(s[i], no_color))) =~= described_row(
            row_cells(s[i], true),
        ));
    }
    assert(untinted_rows(rows) =~= entry_rows(s, true));
}

impl TableRenderer {
    /// Renders the entries as a bordered table followed by the warning
    /// explanation (when an entry is bound to all interfaces) and the
    /// summary; with no entries, a one-line message instead. With colors,
    /// the message is green, the explanation yellow and the summary dimmed
    /// (when the environment lets colored write colors), and the table is
    /// the uncolored table with color sequences around its colored cells
    /// (when standard output is a terminal).
    pub fn render(&self, entries: &[PortEntry], no_color: bool) -> (r: String)
        ensures
            entries@.len() == 0 && no_color ==> r@ == "No ports in use."@,
            entries@.len() == 0 && !no_color ==> styled_as(r@, "No ports in use."@, "32"@),
            entries@.len() > 0 && no_color ==> r@ == plain_table_text(
                utf8_full_preset(),
                Some(described_row(header_cells())),
                entry_rows(entries@, true),
            ) + footer_text(public_count(entries@)) + summary_text(
                entries@.len() as nat,
                public_count(entries@),
            ),
            entries@.len() > 0 && no_color ==> (contains_text(r@, warning_explanation())
                <==> public_count(entries@) > 0),
            no_color && (forall|i: int|
                0 <= i < entries@.len() ==> name_without_escape(#[trigger] entries@[i]))
                ==> has_no_escape(r@),
            entries@.len() > 0 && !no_color ==> exists|t: Seq<char>, f: Seq<char>, m: Seq<char>|
                {
                    &&& r@ == t + f + m
                    &&& public_count(entries@) == 0 ==> f == Seq::<char>::empty()
                    &&& public_count(entries@) > 0 ==> styled_as(
                        f,
                        footer_text(public_count(entries@)),
                        "33"@,
                    )
                    &&& styled_as(
                        m,
                        summary_text(entries@.len() as nat, public_count(entries@)),
                        "2"@,
                    )
                    &&& (forall|i: int|
                        0 <= i < entries@.len() ==> name_without_escape(#[trigger] entries@[i]))
                        ==> strip_sgr(t) == plain_table_text(
                        utf8_full_preset(),
                        Some(described_row(header_cells())),
                        entry_rows(entries@, true),
                    )
                },
    {
        if entries.len() == 0 {
            let msg = "No ports in use.";
            return if no_color {
                proof {
                    reveal_strlit("No ports in use.");
                }
                String::from_str(msg)
            } else {
                proof {
                    reveal_strlit("No ports in use.");
                }
                green_text(msg)
            };
        }
        let mut table = new_table();
        use_full_borders(&mut table);
        set_header_cells(&mut table, styled_cells(header_row()));
        let ghost layout = TableLayout {
            header: Some(described_row(header_cells())),
            preset: Some(utf8_full_preset()),
        };
        let mut i: usize = 0;
        assert(entry_rows(entries@.take(0), no_color) =~= Seq::<Seq<CellModel>>::empty());
        while i < entries.len()
            invariant
                i <= entries@.len(),
                table_layout(table) == layout,
                table_rows(table) == entry_rows(entries@.take(i as int), no_color),
            decreases entries@.len() - i,
        {
            add_row_cells(&mut table, styled_cells(entry_row(&entries[i], no_color)));
            assert(entry_rows(entries@.take(i + 1), no_color) =~= entry_rows(
                entries@.take(i as int),
                no_color,
            ).push(described_row(row_cells(entries@[i as int], no_color))));
            i += 1;
        }
        assert(entries@.take(i as int) =~= entries@);
        proof {
            if no_color {
                lemma_plain_rows(entries@);
                if forall|k: int|
                    0 <= k < entries@.len() ==> name_without_escape(#[trigger] entries@[k]) {
                    lemma_plain_table_no_escape(entries@, true);
                }
            }
        }
        proof {
            lemma_colored_rows(entries@, no_color);
            if forall|k: int|
                0 <= k < entries@.len() ==> name_without_escape(#[trigger] entries@[k]) {
                lemma_plain_table_no_escape(entries@, no_color);
            }
        }
        let mut output = table_text(&table);
        let ghost t = output@;
        let warnings = warning_count(entries);
        let footer = footer_line(warnings);
        proof {
            lemma_footer_no_escape(warnings as nat);
        }
        let mut shown_footer = String::new();
        if warnings > 0 {
            if no_color {
                shown_footer.append(footer.as_str());
            } else {
                shown_footer.append(yellow_text(footer.as_str()).as_str());
            }
        }
        output.append(shown_footer.as_str());
        let summary = summary_line(entries.len(), warnings);
        proof {
            lemma_summary_no_escape(entries@.len() as nat, warnings as nat);
        }
        let shown_summary = if no_color {
            summary
        } else {
            dimmed_text(summary.as_str())
        };
        output.append(shown_summary.as_str());
        proof {
            assert(Seq::<char>::empty() + shown_footer@ == shown_footer@) by {
                assert(Seq::<char>::empty() + shown_footer@ =~= shown_footer@);
            }
            if warnings == 0 {
                assert(shown_footer@ =~= Seq::<char>::empty());
            }
        }
        assert(no_color ==> t == plain_table_text(
            utf8_full_preset(),
            Some(described_row(header_cells())),
            entry_rows(entries@, true),
        ));
        assert(no_color ==> output@ == t + footer_text(public_count(entries@)) + summary_text(
            entries@.len() as nat,
            public_count(entries@),
        ));
        assert(!no_color ==> output@ == t + shown_footer@ + shown_summary@);
        proof {
            if no_color {
                reveal_strlit("││──╞═╪╡┆╌┼├┤┬┴┌┐└┘");
                assert(!utf8_full_preset().contains(' '));
                lemma_explanation_only_when_warned(
                    t,
                    utf8_full_preset(),
                    entries@.len() as nat,
                    public_count(entries@),
                );
            }
            if no_color && has_no_escape(t) {
                lemma_no_escape_add(t, footer_text(public_count(entries@)));
                lemma_no_escape_add(
                    t + footer_text(public_count(entries@)),
                    summary_text(entries@.len() as nat, public_count(entries@)),
                );
            }
        }
        output
    }
}

} // verus!
