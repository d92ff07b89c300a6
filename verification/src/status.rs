//! The status display: how many files are open, and how well each is buffered.

use vstd::arithmetic::div_mod::lemma_fundamental_div_mod_converse;
use vstd::math::{max, min};
use vstd::prelude::*;
use vstd::string::{StrSliceExecFns, StringExecFns};
use vstd::utf8::{
    decode_utf8, encode_utf8, encode_utf8_decode_utf8, encode_utf8_valid_utf8, is_ascii_chars,
    is_ascii_chars_encode_utf8, valid_utf8,
};

use crate::dingus::{Dingus, DingusView};
use crate::file::{least, RoraFile, RoraFileView, BUFFER_AHEAD};
use crate::path::{file_name, final_name};

verus! {

/// Whether a character is a control character.
pub open spec fn is_control(c: char) -> bool {
    c < ' ' || '\x7f' <= c < '\u{a0}'
}

/// The displayed width of a character, if it is not a control character.
pub uninterp spec fn char_width(c: char) -> Option<usize>;

/// Calls `unicode_width::UnicodeWidthChar::width`. The result is the width that
/// the Unicode tables of that crate have for the character; a printable ASCII
/// character is one column wide, and the control characters alone have no width.
#[verifier::external_body]
fn unicode_width_of(c: char) -> (width: Option<usize>)
    ensures
        width == char_width(c),
        ' ' <= c < '\x7f' ==> width == Some(1usize),
        width is None <==> is_control(c),
{
    unicode_width::UnicodeWidthChar::width(c)
}

/// Bytes read as UTF-8, with replacement characters where they are not.
pub uninterp spec fn lossy(bytes: Seq<u8>) -> Seq<char>;

/// Calls `String::from_utf8_lossy`. Bytes that are UTF-8 are decoded as they are.
#[verifier::external_body]
fn text_of(bytes: &[u8]) -> (text: String)
    ensures
        text@ == lossy(bytes@),
        valid_utf8(bytes@) ==> text@ == decode_utf8(bytes@),
{
    String::from_utf8_lossy(bytes).into_owned()
}

/// How well a file is buffered.
#[derive(Clone, Copy, Debug, PartialEq, Eq, Structural)]
pub enum Shade {
    /// At least half of what is aimed for.
    Green,
    /// At least a quarter.
    Yellow,
    /// Less.
    Red,
}

/// The line for one open file.
pub struct Row {
    pub shade: Shade,
    /// The part that is highlighted in that shade.
    pub lit: String,
    /// The rest.
    pub plain: String,
}

/// The mathematical view of a line.
#[verifier::ext_equal]
pub struct RowView {
    pub shade: Shade,
    pub lit: Seq<char>,
    pub plain: Seq<char>,
}

impl View for Row {
    type V = RowView;

    open spec fn view(&self) -> RowView {
        RowView { shade: self.shade, lit: self.lit@, plain: self.plain@ }
    }
}

/// All that is displayed.
pub struct Status {
    pub heading: String,
    pub rows: Vec<Row>,
}

/// A digit as a character.
pub open spec fn digit(d: int) -> char {
    (0x30 + d) as char
}

/// A number in decimal.
pub open spec fn decimal(n: nat) -> Seq<char>
    decreases n,
{
    if n < 10 {
        seq![digit(n as int)]
    } else {
        decimal(n / 10).push(digit((n % 10) as int))
    }
}

/// How the number of open files is put.
pub open spec fn heading_text(count: nat) -> Seq<char> {
    decimal(count) + (if count == 1 {
        " file open"@
    } else {
        " files open"@
    })
}

/// The cells that a run of characters takes, given the width of each.
pub open spec fn cells(widths: Seq<usize>) -> int
    decreases widths.len(),
{
    if widths.len() == 0 {
        0
    } else {
        cells(widths.drop_last()) + widths.last()
    }
}

/// The cells that a character takes. Control characters are displayed in two.
pub open spec fn cell_width(c: char) -> usize {
    match char_width(c) {
        Some(width) => width,
        None => 2,
    }
}

/// Whether the first `k` characters are the fewest that take exactly `frac`
/// cells, and are not all.
pub open spec fn is_cut(widths: Seq<usize>, frac: int, k: int) -> bool {
    &&& 0 <= k < widths.len()
    &&& cells(widths.take(k)) == frac
    &&& forall|j: int| 0 <= j < k ==> cells(#[trigger] widths.take(j)) != frac
}

/// Some blanks.
pub open spec fn blanks(count: int) -> Seq<char> {
    Seq::new(count as nat, |i: int| ' ')
}

/// What is highlighted of a name if `frac` cells are to be, and what is not. A
/// name that is too short is padded. One in which no character ends at that cell
/// is highlighted as a whole.
pub open spec fn highlighted(name: Seq<char>, widths: Seq<usize>, frac: int) -> (
    Seq<char>,
    Seq<char>,
) {
    if exists|k: int| is_cut(widths, frac, k) {
        let k = choose|k: int| is_cut(widths, frac, k);
        (name.take(k), name.skip(k))
    } else if cells(widths) < frac {
        (name + blanks(frac - cells(widths)), Seq::<char>::empty())
    } else {
        (name, Seq::<char>::empty())
    }
}

/// What is highlighted of a name of characters that take one cell each if `frac`
/// cells are to be, and what is not.
pub open spec fn split_at(name: Seq<char>, frac: int) -> (Seq<char>, Seq<char>) {
    if frac < name.len() {
        (name.take(frac), name.skip(frac))
    } else {
        (name + blanks(frac - name.len()), Seq::<char>::empty())
    }
}

/// Whether all of these bytes are printable ASCII characters.
pub open spec fn are_printable(bytes: Seq<u8>) -> bool {
    forall|i: int| 0 <= i < bytes.len() ==> 0x20 <= #[trigger] bytes[i] < 0x7f
}

/// Bytes as the ASCII characters that they are.
pub open spec fn ascii(bytes: Seq<u8>) -> Seq<char> {
    bytes.map_values(|b: u8| b as char)
}

/// The shade for having `amount` bytes buffered where `target` are aimed for.
pub open spec fn shade_of(amount: int, target: int) -> Shade {
    if amount >= target / 2 {
        Shade::Green
    } else if amount >= target / 4 {
        Shade::Yellow
    } else {
        Shade::Red
    }
}

/// The cells to highlight out of `width`.
pub open spec fn lit_cells(amount: int, target: int, width: int) -> int {
    if target == 0 {
        width
    } else {
        amount * width / target
    }
}

impl<H> RoraFileView<H> {
    /// How many bytes the display counts as full.
    pub open spec fn target(self) -> int {
        least(self.size - self.start(), BUFFER_AHEAD as int)
    }

    /// The line for this file on a display that is `width` cells wide.
    pub open spec fn row(self, width: int) -> RowView {
        let name = lossy(final_name(self.path)->0);
        let widths = name.map_values(|c: char| cell_width(c));
        let (lit, plain) = highlighted(
            name,
            widths,
            lit_cells(self.ahead(), self.target(), width),
        );
        RowView { shade: shade_of(self.ahead(), self.target()), lit, plain }
    }

    /// Whether the line for this file, if its name is printable ASCII, is that
    /// name, highlighted up to the very cell.
    pub open spec fn is_split(self, width: int) -> bool {
        let name = final_name(self.path)->0;
        let frac = lit_cells(self.ahead(), self.target(), width);
        are_printable(name) ==> (self.row(width).lit, self.row(width).plain) == split_at(
            ascii(name),
            frac,
        )
    }
}

/// The open files among some slots, in order.
pub open spec fn opened<H>(slots: Seq<Option<RoraFileView<H>>>) -> Seq<RoraFileView<H>>
    decreases slots.len(),
{
    if slots.len() == 0 {
        Seq::<RoraFileView<H>>::empty()
    } else {
        let before = opened(slots.drop_last());
        match slots.last() {
            Some(file) => before.push(file),
            None => before,
        }
    }
}

impl<H> DingusView<H> {
    /// Whether every open file has a name.
    pub open spec fn are_named(self) -> bool {
        forall|fh: int| #[trigger] self.is_open(fh) ==> final_name(self.files[fh]->0.path) is Some
    }
}

/// Cells never become fewer.
proof fn lemma_cells_grow(widths: Seq<usize>, from: int, to: int)
    requires
        0 <= from <= to <= widths.len(),
    ensures
        0 <= cells(widths.take(from)) <= cells(widths.take(to)),
    decreases to,
{
    if to > 0 {
        assert(widths.take(to).drop_last() =~= widths.take(to - 1));
        if from < to {
            lemma_cells_grow(widths, from, to - 1);
        } else {
            lemma_cells_grow(widths, from - 1, to - 1);
        }
    }
}

/// There is at most one cut.
proof fn lemma_one_cut(widths: Seq<usize>, frac: int, k: int)
    requires
        is_cut(widths, frac, k),
    ensures
        (choose|j: int| is_cut(widths, frac, j)) == k,
{
    let j = choose|j: int| is_cut(widths, frac, j);
    assert(is_cut(widths, frac, j));
    assert(cells(widths.take(j)) == frac);
    assert(cells(widths.take(k)) == frac);
}

/// A name of characters that take one cell each is cut where the cells end.
pub proof fn law_one_cell_each(name: Seq<char>, widths: Seq<usize>, frac: int)
    requires
        widths.len() == name.len(),
        forall|i: int| 0 <= i < widths.len() ==> #[trigger] widths[i] == 1,
        0 <= frac,
    ensures
        highlighted(name, widths, frac) == split_at(name, frac),
{
    assert forall|k: int| 0 <= k <= widths.len() implies cells(#[trigger] widths.take(k)) == k by {
        lemma_one_each(widths, k);
    }
    assert(widths.take(widths.len() as int) =~= widths);
    if frac < widths.len() {
        assert(is_cut(widths, frac, frac));
        lemma_one_cut(widths, frac, frac);
    } else {
        assert forall|k: int| !is_cut(widths, frac, k) by {
            if is_cut(widths, frac, k) {
                assert(cells(widths.take(k)) == k);
            }
        }
        assert(name + blanks(0) =~= name);
    }
}

/// Characters that take one cell each take as many cells as they are.
proof fn lemma_one_each(widths: Seq<usize>, k: int)
    requires
        0 <= k <= widths.len(),
        forall|i: int| 0 <= i < widths.len() ==> #[trigger] widths[i] == 1,
    ensures
        cells(widths.take(k)) == k,
    decreases k,
{
    if k > 0 {
        assert(widths.take(k).drop_last() =~= widths.take(k - 1));
        lemma_one_each(widths, k - 1);
    }
}

/// ASCII bytes decode to the characters that they are.
proof fn lemma_ascii_decodes(bytes: Seq<u8>)
    requires
        are_printable(bytes),
    ensures
        valid_utf8(bytes),
        decode_utf8(bytes) == ascii(bytes),
{
    let chars = ascii(bytes);
    assert(is_ascii_chars(chars));
    is_ascii_chars_encode_utf8(chars);
    assert(encode_utf8(chars) =~= bytes);
    encode_utf8_valid_utf8(chars);
    encode_utf8_decode_utf8(chars);
}

/// Writes a digit.
fn digit_text(d: u64) -> (text: &'static str)
    requires
        d < 10,
    ensures
        text@ == seq![digit(d as int)],
{
    proof {
        reveal_strlit("0");
        reveal_strlit("1");
        reveal_strlit("2");
        reveal_strlit("3");
        reveal_strlit("4");
        reveal_strlit("5");
        reveal_strlit("6");
        reveal_strlit("7");
        reveal_strlit("8");
        reveal_strlit("9");
    }
    match d {
        0 => "0",
        1 => "1",
        2 => "2",
        3 => "3",
        4 => "4",
        5 => "5",
        6 => "6",
        7 => "7",
        8 => "8",
        _ => "9",
    }
}

/// Writes a number in decimal.
pub fn write_decimal(n: u64) -> (text: String)
    ensures
        text@ == decimal(n as nat),
    decreases n,
{
    if n < 10 {
        let mut text = String::new();
        text.append(digit_text(n));
        assert(text@ =~= decimal(n as nat));
        return text;
    }
    let mut text = write_decimal(n / 10);
    text.append(digit_text(n % 10));
    assert(text@ =~= decimal(n as nat));
    text
}

/// Splits a name into what is highlighted and what is not, given the cells that
/// each of its characters takes.
pub fn highlight(name: &str, widths: &Vec<usize>, frac: usize) -> (parts: (String, String))
    requires
        widths@.len() == name@.len(),
    ensures
        (parts.0@, parts.1@) == highlighted(name@, widths@, frac as int),
{
    let mut x: usize = 0;
    let mut i: usize = 0;
    assert(widths@.take(0) =~= Seq::<usize>::empty());
    while i < widths.len()
        invariant
            widths@.len() == name@.len(),
            i <= widths.len(),
            x <= frac,
            x == cells(widths@.take(i as int)),
            forall|j: int| 0 <= j < i ==> cells(#[trigger] widths@.take(j)) != frac,
        decreases widths.len() - i,
    {
        if x == frac {
            proof {
                assert(is_cut(widths@, frac as int, i as int));
                lemma_one_cut(widths@, frac as int, i as int);
                assert(name@.subrange(0, i as int) =~= name@.take(i as int));
                assert(name@.subrange(i as int, name@.len() as int) =~= name@.skip(i as int));
            }
            let lit = name.substring_char(0, i).to_owned();
            let plain = name.substring_char(i, widths.len()).to_owned();
            return (lit, plain);
        }
        assert(widths@.take(i + 1).drop_last() =~= widths@.take(i as int));
        if widths[i] > frac - x {
            proof {
                assert forall|k: int| !is_cut(widths@, frac as int, k) by {
                    if is_cut(widths@, frac as int, k) {
                        assert(cells(widths@.take(k)) == frac);
                        lemma_cells_grow(widths@, i + 1, k);
                    }
                }
                lemma_cells_grow(widths@, i + 1, widths@.len() as int);
                assert(widths@.take(widths@.len() as int) =~= widths@);
            }
            return (name.to_owned(), String::new());
        }
        x = x + widths[i];
        i = i + 1;
    }
    proof {
        assert(widths@.take(i as int) =~= widths@);
        assert forall|k: int| !is_cut(widths@, frac as int, k) by {
            if is_cut(widths@, frac as int, k) {
                assert(cells(widths@.take(k)) == frac);
            }
        }
    }
    let mut lit = name.to_owned();
    let ghost used: int = x as int;
    assert(lit@ =~= name@ + blanks(0));
    while x < frac
        invariant
            used <= x <= frac,
            lit@ == name@ + blanks(x - used),
        decreases frac - x,
    {
        lit.append(" ");
        proof {
            reveal_strlit(" ");
            assert(lit@ =~= name@ + blanks(x + 1 - used));
        }
        x = x + 1;
    }
    assert(used == frac ==> lit@ =~= name@);
    (lit, String::new())
}

/// Measures the cells that each character of a name takes.
fn measure(name: &str) -> (widths: Vec<usize>)
    ensures
        widths@ == name@.map_values(|c: char| cell_width(c)),
        forall|j: int|
            0 <= j < name@.len() ==> {
                &&& ' ' <= name@[j] < '\x7f' ==> #[trigger] widths@[j] == 1
                &&& is_control(name@[j]) ==> widths@[j] == 2
            },
{
    let mut widths: Vec<usize> = Vec::new();
    let count = name.unicode_len();
    let mut i: usize = 0;
    while i < count
        invariant
            i <= count == name@.len(),
            widths.len() == i,
            forall|j: int| 0 <= j < i ==> widths@[j] == cell_width(#[trigger] name@[j]),
            forall|j: int|
                0 <= j < i ==> {
                    &&& ' ' <= name@[j] < '\x7f' ==> #[trigger] widths@[j] == 1
                    &&& is_control(name@[j]) ==> widths@[j] == 2
                },
        decreases count - i,
    {
        let width: usize = match unicode_width_of(name.get_char(i)) {
            Some(width) => width,
            None => 2,
        };
        widths.push(width);
        i = i + 1;
    }
    assert(widths@ =~= name@.map_values(|c: char| cell_width(c)));
    widths
}

/// Computes the cells to highlight.
fn count_lit(amount: usize, target: usize, width: u16) -> (frac: usize)
    requires
        amount <= 2 * target,
        target <= BUFFER_AHEAD,
    ensures
        frac == lit_cells(amount as int, target as int, width as int),
{
    if target == 0 {
        return width as usize;
    }
    assert(amount * width <= 2 * target * width) by (nonlinear_arith)
        requires
            amount <= 2 * target,
    ;
    assert(2 * target * width <= 2 * 536_870_912 * 65_535) by (nonlinear_arith)
        requires
            target <= 536_870_912,
            width <= 65_535,
    ;
    let product: u64 = amount as u64 * width as u64;
    assert(product / target as u64 <= 2 * width) by (nonlinear_arith)
        requires
            product <= 2 * target * width,
            target > 0,
    ;
    (product / target as u64) as usize
}

/// The line for an open file on a display that is `width` cells wide.
pub fn status_row<H>(file: &RoraFile<H>, width: u16) -> (row: Row)
    requires
        file@.wf(),
        file@.within(),
        final_name(file@.path) is Some,
    ensures
        row@ == file@.row(width as int),
        file@.is_split(width as int),
{
    let name = match file_name(file.path.as_slice()) {
        Some(bytes) => text_of(bytes.as_slice()),
        None => String::new(),
    };
    let amount: usize = file.buffer.len() - file.buffered_behind;
    let left: u64 = file.file_size - file.buffer_pos + file.buffered_behind as u64;
    let target: usize = if left < BUFFER_AHEAD as u64 {
        left as usize
    } else {
        BUFFER_AHEAD
    };
    let frac = count_lit(amount, target, width);
    let shade = if amount >= target / 2 {
        Shade::Green
    } else if amount >= target / 4 {
        Shade::Yellow
    } else {
        Shade::Red
    };
    let widths = measure(name.as_str());
    let (lit, plain) = highlight(name.as_str(), &widths, frac);
    proof {
        let bytes = final_name(file@.path)->0;
        if are_printable(bytes) {
            lemma_ascii_decodes(bytes);
            law_one_cell_each(name@, widths@, frac as int);
        }
    }
    Row { shade, lit, plain }
}

impl<H> Dingus<H> {
    /// Whether every open file has a name.
    pub fn all_named(&self) -> (yes: bool)
        ensures
            yes == self@.are_named(),
    {
        let mut i: usize = 0;
        while i < self.open_files.len()
            invariant
                i <= self.open_files.len(),
                forall|fh: int|
                    fh < i && #[trigger] self@.is_open(fh) ==> final_name(
                        self@.files[fh]->0.path,
                    ) is Some,
            decreases self.open_files.len() - i,
        {
            if let Some(file) = &self.open_files[i] {
                if file_name(file.path.as_slice()).is_none() {
                    assert(self@.is_open(i as int));
                    return false;
                }
            }
            i = i + 1;
        }
        true
    }

    /// All that is displayed, on a display that is `width` cells wide.
    pub fn status(&self, width: u16) -> (status: Status)
        requires
            self.wf(),
            self@.are_named(),
        ensures
            status.heading@ == heading_text(opened(self@.files).len()),
            status.rows.len() == opened(self@.files).len(),
            forall|i: int|
                0 <= i < status.rows.len() ==> (#[trigger] status.rows@[i])@ == opened(
                    self@.files,
                )[i].row(width as int),
            forall|i: int|
                0 <= i < status.rows.len() ==> (#[trigger] opened(self@.files)[i]).is_split(
                    width as int,
                ),
    {
        let mut rows: Vec<Row> = Vec::new();
        let mut i: usize = 0;
        while i < self.open_files.len()
            invariant
                self.wf(),
                self@.are_named(),
                i <= self.open_files.len(),
                rows.len() == opened(self@.files.take(i as int)).len(),
                forall|j: int|
                    0 <= j < rows.len() ==> (#[trigger] rows@[j])@ == opened(
                        self@.files.take(i as int),
                    )[j].row(width as int),
                forall|j: int|
                    0 <= j < rows.len() ==> (#[trigger] opened(
                        self@.files.take(i as int),
                    )[j]).is_split(width as int),
            decreases self.open_files.len() - i,
        {
            proof {
                assert(self@.files.take(i + 1).drop_last() =~= self@.files.take(i as int));
                assert(self@.files.take(i + 1).last() == self@.files[i as int]);
            }
            if let Some(file) = &self.open_files[i] {
                assert(self@.is_open(i as int));
                rows.push(status_row(file, width));
            }
            i = i + 1;
        }
        assert(self@.files.take(i as int) =~= self@.files);
        let mut heading = write_decimal(rows.len() as u64);
        if rows.len() == 1 {
            heading.append(" file open");
        } else {
            heading.append(" files open");
        }
        Status { heading, rows }
    }
}

/// A number is written in decimal digits that amount to it, without leading
/// zeros.
pub proof fn law_decimals_amount_to_number(n: nat)
    ensures
        decimal(n).fold_left(0int, |before: int, c: char| before * 10 + (c as int - 48)) == n,
        decimal(n).len() > 0,
        n >= 10 <==> decimal(n).len() > 1,
        forall|i: int| 0 <= i < decimal(n).len() ==> '0' <= #[trigger] decimal(n)[i] <= '9',
        decimal(n).len() > 1 ==> decimal(n)[0] != '0',
    decreases n,
{
    let step = |before: int, c: char| before * 10 + (c as int - 48);
    let text = decimal(n);
    let last = text.last();
    assert(last as int - 48 == n % 10);
    if n >= 10 {
        law_decimals_amount_to_number(n / 10);
        assert(text.drop_last() =~= decimal(n / 10));
        assert(text.fold_left(0int, step) == step(text.drop_last().fold_left(0int, step), last));
        if n / 10 < 10 {
            assert(decimal(n / 10)[0] as int - 48 == n / 10);
        }
        assert(text[0] == decimal(n / 10)[0]);
    } else {
        assert(text.drop_last().len() == 0);
        reveal_with_fuel(Seq::fold_left, 2);
        assert(text.fold_left(0int, step) == step(text.drop_last().fold_left(0int, step), last));
    }
}

/// The heading says how many files are open; of one it speaks in the singular.
pub proof fn law_heading_tells_number(count: nat)
    ensures
        heading_text(count).take(decimal(count).len() as int) == decimal(count),
        count == 1 ==> heading_text(count).skip(decimal(count).len() as int) == " file open"@,
        count != 1 ==> heading_text(count).skip(decimal(count).len() as int) == " files open"@,
{
    let end = if count == 1 {
        " file open"@
    } else {
        " files open"@
    };
    assert(heading_text(count).take(decimal(count).len() as int) =~= decimal(count));
    assert(heading_text(count).skip(decimal(count).len() as int) =~= end);
}

/// The cells of characters add up.
pub proof fn law_cells_add_up(widths: Seq<usize>, next: usize)
    ensures
        cells(Seq::<usize>::empty()) == 0,
        cells(widths.push(next)) == cells(widths) + next,
{
    assert(widths.push(next).drop_last() =~= widths);
}

/// Characters take the cells that they are wide; control characters, which have
/// no width, take two.
pub proof fn law_characters_take_their_width(c: char)
    ensures
        char_width(c) is Some ==> cell_width(c) == char_width(c)->0,
        char_width(c) is None ==> cell_width(c) == 2,
{
}

/// Of a name as much is highlighted as ends at the given cell, or all of it if no
/// character ends there; if the name is too short, blanks make up for it. Nothing
/// of the name is lost or changed.
pub proof fn law_name_is_highlighted_up_to_cell(name: Seq<char>, widths: Seq<usize>, frac: int)
    requires
        widths.len() == name.len(),
        0 <= frac,
    ensures
        ({
            let (lit, plain) = highlighted(name, widths, frac);
            let shown = lit + plain;
            &&& shown.len() >= name.len()
            &&& shown.take(name.len() as int) == name
            &&& forall|i: int| name.len() <= i < shown.len() ==> #[trigger] shown[i] == ' '
            &&& plain.len() > 0 ==> {
                &&& shown.len() == name.len()
                &&& cells(widths.take(lit.len() as int)) == frac
                &&& forall|j: int|
                    0 <= j < lit.len() ==> cells(#[trigger] widths.take(j)) != frac
            }
            &&& plain.len() == 0 ==> {
                &&& lit.len() == name.len() + max(0, frac - cells(widths))
                &&& forall|j: int|
                    0 <= j < name.len() ==> cells(#[trigger] widths.take(j)) != frac
            }
        }),
{
    let (lit, plain) = highlighted(name, widths, frac);
    let shown = lit + plain;
    if exists|k: int| is_cut(widths, frac, k) {
        let k = choose|k: int| is_cut(widths, frac, k);
        assert(is_cut(widths, frac, k));
        assert(shown =~= name);
        assert(shown.take(name.len() as int) =~= name);
    } else {
        assert(shown.take(name.len() as int) =~= name);
        assert forall|j: int| 0 <= j < name.len() implies cells(#[trigger] widths.take(j))
            != frac by {
            if cells(widths.take(j)) == frac {
                lemma_some_cut(widths, frac, j);
            }
        }
    }
}

/// Where some of the characters take exactly `frac` cells, there is a cut.
proof fn lemma_some_cut(widths: Seq<usize>, frac: int, j: int)
    requires
        0 <= j < widths.len(),
        cells(widths.take(j)) == frac,
    ensures
        exists|k: int| is_cut(widths, frac, k),
    decreases j,
{
    if exists|i: int| 0 <= i < j && cells(#[trigger] widths.take(i)) == frac {
        let i = choose|i: int| 0 <= i < j && cells(#[trigger] widths.take(i)) == frac;
        lemma_some_cut(widths, frac, i);
    } else {
        assert(is_cut(widths, frac, j));
    }
}

/// A file is shown green from half of what is aimed for on, and yellow from a
/// quarter on; both are rounded down.
pub proof fn law_shades_tell_how_much_is_buffered(amount: int, target: int)
    requires
        0 <= amount,
        0 <= target,
    ensures
        shade_of(amount, target) == Shade::Green <==> 2 * amount + 1 >= target,
        shade_of(amount, target) == Shade::Red <==> 4 * amount + 3 < target,
{
}

/// Out of the width of the display, as much is highlighted as is buffered out of
/// what is aimed for; all of it if nothing is.
pub proof fn law_highlight_is_in_proportion(amount: int, target: int, width: int)
    requires
        0 <= amount,
        0 <= target,
        0 <= width,
    ensures
        target == 0 ==> lit_cells(amount, target, width) == width,
        target > 0 ==> {
            let lit = lit_cells(amount, target, width);
            lit * target <= amount * width < (lit + 1) * target
        },
{
    if target > 0 {
        let whole = amount * width;
        vstd::arithmetic::div_mod::lemma_fundamental_div_mod(whole, target);
        assert(target * (whole / target) == (whole / target) * target) by (nonlinear_arith);
        assert((whole / target + 1) * target == (whole / target) * target + target)
            by (nonlinear_arith);
    }
}

/// The line for a file shows the last component of its path. It is highlighted in
/// proportion to what is buffered ahead, out of the rest of the file or 512 MiB.
pub proof fn law_line_shows_file<H>(
    file: RoraFileView<H>,
    width: int,
    widths: Seq<usize>,
    frac: int,
)
    requires
        file.wf(),
        file.within(),
        0 <= width,
        ({
            let name = lossy(final_name(file.path)->0);
            let ahead = file.buffer.len() - file.behind;
            let target = min(file.size - (file.pos - file.behind), 536_870_912);
            &&& widths.len() == name.len()
            &&& forall|i: int|
                0 <= i < name.len() ==> #[trigger] widths[i] == (match char_width(name[i]) {
                    Some(cells) => cells,
                    None => 2usize,
                })
            &&& target == 0 ==> frac == width
            &&& target > 0 ==> frac * target <= ahead * width < (frac + 1) * target
        }),
    ensures
        ({
            let name = lossy(final_name(file.path)->0);
            let ahead = file.buffer.len() - file.behind;
            let target = min(file.size - (file.pos - file.behind), 536_870_912);
            let row = file.row(width);
            &&& (row.lit, row.plain) == highlighted(name, widths, frac)
            &&& row.shade == Shade::Green <==> 2 * ahead + 1 >= target
            &&& row.shade == Shade::Red <==> 4 * ahead + 3 < target
        }),
{
    let name = lossy(final_name(file.path)->0);
    let ahead = file.buffer.len() - file.behind;
    let target = min(file.size - (file.pos - file.behind), 536_870_912);
    assert(widths =~= name.map_values(|c: char| cell_width(c)));
    if target > 0 {
        let rest = ahead * width - frac * target;
        assert((frac + 1) * target == frac * target + target) by (nonlinear_arith);
        lemma_fundamental_div_mod_converse(ahead * width, target, frac, rest);
    }
}

/// There is a line for every open file, in the order of the handles, and for
/// nothing else.
pub proof fn law_every_open_file_has_a_line<H>(slots: Seq<Option<RoraFileView<H>>>)
    ensures
        opened(slots) == slots.filter(|slot: Option<RoraFileView<H>>| slot is Some).map_values(
            |slot: Option<RoraFileView<H>>| slot->0,
        ),
    decreases slots.len(),
{
    let is_file = |slot: Option<RoraFileView<H>>| slot is Some;
    let file_in = |slot: Option<RoraFileView<H>>| slot->0;
    reveal(Seq::filter);
    if slots.len() > 0 {
        let short = slots.drop_last();
        law_every_open_file_has_a_line(short);
        assert(slots.filter(is_file) == (if slots.last() is Some {
            short.filter(is_file).push(slots.last())
        } else {
            short.filter(is_file)
        }));
        assert(opened(slots) =~= slots.filter(is_file).map_values(file_in));
    } else {
        assert(opened(slots) =~= slots.filter(is_file).map_values(file_in));
    }
}

/// Every open file has a name exactly if the last component of each one's path is
/// one.
pub proof fn law_named_means_all_named<H>(caches: DingusView<H>)
    ensures
        caches.are_named() <==> forall|fh: int|
            #![trigger caches.files[fh]]
            0 <= fh < caches.files.len() && caches.files[fh] is Some ==> final_name(
                caches.files[fh]->0.path,
            ) is Some,
{
    if caches.are_named() {
        assert forall|fh: int|
            #![trigger caches.files[fh]]
            0 <= fh < caches.files.len() && caches.files[fh] is Some implies final_name(
            caches.files[fh]->0.path,
        ) is Some by {
            assert(caches.is_open(fh));
        }
    }
}

/// A name of printable ASCII characters is shown as it is, up to the very cell,
/// with blanks behind it where the name is too short.
pub proof fn law_split_is_at_cell(name: Seq<char>, bytes: Seq<u8>, frac: int)
    requires
        0 <= frac,
    ensures
        ({
            let (lit, plain) = split_at(name, frac);
            &&& lit.len() == frac
            &&& lit.len() + plain.len() == max(frac, name.len() as int)
            &&& (lit + plain).take(name.len() as int) == name
            &&& forall|i: int| name.len() <= i < frac ==> #[trigger] lit[i] == ' '
        }),
        are_printable(bytes) <==> forall|i: int|
            0 <= i < bytes.len() ==> 0x20 <= #[trigger] bytes[i] < 0x7f,
        ascii(bytes).len() == bytes.len(),
        forall|i: int| 0 <= i < bytes.len() ==> #[trigger] ascii(bytes)[i] as int == bytes[i],
{
    let (lit, plain) = split_at(name, frac);
    assert((lit + plain).take(name.len() as int) =~= name);
}

} // verus!
