//! The page builder: turns the coloured runs of a file's lines into pages of
//! drawing operations.
//!
//! Positions and sizes of text are in millipoints (1/1000 pt); page
//! dimensions are in micrometres (see [`crate::dimensions`]).
use crate::dimensions::{to_millipoints, um_to_mpt, Dimensions};
use crate::text_manipulation::{
    advances_in, covered_by, lemma_wrap_within_limits, line_limit, lines_view, total, wrapped_lines,
    TextWrapper,
};
use vstd::arithmetic::div_mod::lemma_div_is_ordered_by_denominator;
use vstd::prelude::*;

verus! {

/// Distance of the header's baseline below the top edge, in micrometres.
pub const HEADER_OFFSET: u32 = 7_500;

/// Gap between the caption and the wrapped path, in micrometres.
pub const CAPTION_GAP: u32 = 5_000;

/// A foreground colour.
#[derive(Clone, Copy, Debug, PartialEq, Eq, Structural)]
pub struct Rgb {
    pub r: u8,
    pub g: u8,
    pub b: u8,
}

/// A run of text in one colour, as the highlighter hands it over.
#[derive(Clone, Debug, PartialEq, Eq)]
pub struct StyledRun {
    pub color: Rgb,
    pub text: String,
}

/// A point on an image, in pixels.
#[derive(Clone, Copy, Debug, PartialEq, Eq, Structural)]
pub struct PixelPoint {
    pub x: u64,
    pub y: u64,
}

/// Where an image goes on its page: a uniform scale of `scale_num / scale_den`,
/// and, for wide images, the centre (in pixels) of a quarter turn clockwise.
#[derive(Clone, Copy, Debug, PartialEq, Eq, Structural)]
pub struct ImagePlacement {
    pub scale_num: u64,
    pub scale_den: u64,
    pub rotation_center: Option<PixelPoint>,
}

/// A drawing operation on a page.
#[derive(Clone, Debug, PartialEq, Eq)]
pub enum Op {
    StartTextSection,
    /// Line height, in millipoints.
    SetLineHeight(u64),
    /// Font size, in millipoints.
    SetFontSize(u64),
    /// Resets the text matrix to the identity.
    ResetTextMatrix,
    /// Moves the text cursor to (x, y), in millipoints from the bottom left.
    SetTextCursor(i64, i64),
    SetFillTextRendering,
    SetFillColor(Rgb),
    WriteText(String),
    AddLineBreak,
    /// Draws the image with the given asset index.
    UseImage(usize, ImagePlacement),
}

/// A drawing operation, with its text as characters.
pub enum OpV {
    StartTextSection,
    SetLineHeight(int),
    SetFontSize(int),
    ResetTextMatrix,
    SetTextCursor(int, int),
    SetFillTextRendering,
    SetFillColor(Rgb),
    WriteText(Seq<char>),
    AddLineBreak,
    UseImage(int, ImagePlacement),
}

impl View for Op {
    type V = OpV;

    open spec fn view(&self) -> OpV {
        match self {
            Op::StartTextSection => OpV::StartTextSection,
            Op::SetLineHeight(h) => OpV::SetLineHeight(*h as int),
            Op::SetFontSize(s) => OpV::SetFontSize(*s as int),
            Op::ResetTextMatrix => OpV::ResetTextMatrix,
            Op::SetTextCursor(x, y) => OpV::SetTextCursor(*x as int, *y as int),
            Op::SetFillTextRendering => OpV::SetFillTextRendering,
            Op::SetFillColor(c) => OpV::SetFillColor(*c),
            Op::WriteText(t) => OpV::WriteText(t@),
            Op::AddLineBreak => OpV::AddLineBreak,
            Op::UseImage(id, p) => OpV::UseImage(*id as int, *p),
        }
    }
}

/// The operations of a sequence, viewed.
pub open spec fn ops_view(v: Seq<Op>) -> Seq<OpV> {
    v.map_values(|o: Op| o@)
}

/// A finished page: its operations, and the ordinal of the file it shows.
#[derive(Clone, Debug, PartialEq, Eq)]
pub struct Page {
    pub ops: Vec<Op>,
    pub ordinal: usize,
}

/// A finished page, viewed.
pub struct PageV {
    pub ops: Seq<OpV>,
    pub ordinal: int,
}

impl View for Page {
    type V = PageV;

    open spec fn view(&self) -> PageV {
        PageV { ops: ops_view(self.ops@), ordinal: self.ordinal as int }
    }
}

/// The pages of a sequence, viewed.
pub open spec fn pages_view(v: Seq<Page>) -> Seq<PageV> {
    v.map_values(|p: Page| p@)
}

/// Index of the first `\n` of `s`, or its length where it has none.
pub open spec fn first_newline(s: Seq<char>) -> int
    decreases s.len(),
{
    if s.len() == 0 {
        0
    } else if s[0] == '\n' {
        0
    } else {
        1 + first_newline(s.drop_first())
    }
}

/// The lines of `s` as `str::lines` splits them: at each `\n`, with a `\r`
/// just before it dropped, and no line after a final `\n`.
pub open spec fn text_lines(s: Seq<char>) -> Seq<Seq<char>>
    decreases s.len(),
    via text_lines_decreases
{
    if s.len() == 0 {
        seq![]
    } else {
        let i = first_newline(s);
        if i >= s.len() {
            seq![s]
        } else {
            let line = if i > 0 && s[i - 1] == '\r' {
                s.take(i - 1)
            } else {
                s.take(i)
            };
            seq![line] + text_lines(s.skip(i + 1))
        }
    }
}

#[via_fn]
proof fn text_lines_decreases(s: Seq<char>) {
    lemma_first_newline(s);
}

proof fn lemma_first_newline(s: Seq<char>)
    ensures
        0 <= first_newline(s) <= s.len(),
        first_newline(s) < s.len() ==> s[first_newline(s)] == '\n',
        forall|j: int| 0 <= j < first_newline(s) ==> s[j] != '\n',
    decreases s.len(),
{
    if s.len() > 0 && s[0] != '\n' {
        lemma_first_newline(s.drop_first());
        assert forall|j: int| 0 <= j < first_newline(s) implies s[j] != '\n' by {
            if j > 0 {
                assert(s[j] == s.drop_first()[j - 1]);
            }
        }
    }
}

/// Relies on `str::lines`: the lines of `s`, as [`text_lines`] states.
#[verifier::external_body]
fn lines_of(s: &str) -> (r: Vec<String>)
    ensures
        r@.map_values(|l: String| l@) == text_lines(s@),
{
    s.lines().map(|l| l.to_string()).collect()
}

/// Text written at the top right of every page, with the width of its widest line.
#[derive(Clone, Debug)]
pub struct ProcessedText {
    lines: Vec<String>,
    width: u64,
}

/// The largest of the widths of `lines`, or 0.
pub open spec fn widest(lines: Seq<Seq<char>>, advs: Map<u32, u32>) -> int
    decreases lines.len(),
{
    if lines.len() == 0 {
        0
    } else {
        let w = width_with(lines.last(), advs);
        let rest = widest(lines.drop_last(), advs);
        if w > rest {
            w
        } else {
            rest
        }
    }
}

/// The width of `s` with the advances `advs`.
pub open spec fn width_with(s: Seq<char>, advs: Map<u32, u32>) -> int {
    total(advances_in(advs, s))
}

impl ProcessedText {
    /// Its lines and the width of the widest.
    pub closed spec fn view(&self) -> (Seq<Seq<char>>, int) {
        (self.lines@.map_values(|l: String| l@), self.width as int)
    }

    /// The lines of `text`, measured with `wrapper`; `None` where `text` has
    /// no line.
    pub fn new(text: String, wrapper: &TextWrapper) -> (r: Option<Self>)
        requires
            wrapper.covers(text@),
            text@.len() <= 0xffff,
        ensures
            r.is_none() <==> text_lines(text@).len() == 0,
            r matches Some(p) ==> p.view() == (
                text_lines(text@),
                widest(text_lines(text@), wrapper.advances()),
            ) && p.view().1 <= 0xffff * 0xffff_ffff,
    {
        let lines = lines_of(text.as_str());
        proof {
            lemma_text_lines_within(text@);
        }
        if lines.len() == 0 {
            return None;
        }
        let mut width: u64 = 0;
        let mut i: usize = 0;
        let ghost lv = lines@.map_values(|l: String| l@);
        assert forall|k: int| 0 <= k < lv.len() implies (#[trigger] lv[k]).len() <= text@.len()
            && wrapper.covers(lv[k]) by {
            assert forall|j: int| 0 <= j < lv[k].len() implies wrapper.advances().dom().contains(
                #[trigger] lv[k][j] as u32,
            ) by {
                assert(text@.contains(text_lines(text@)[k][j]));
                let m = choose|m: int| 0 <= m < text@.len() && text@[m] == text_lines(text@)[k][j];
                assert(wrapper.advances().dom().contains(text@[m] as u32));
            }
        }
        while i < lines.len()
            invariant
                i <= lines.len(),
                lv == lines@.map_values(|l: String| l@),
                lv == text_lines(text@),
                forall|k: int|
                    0 <= k < lv.len() ==> (#[trigger] lv[k]).len() <= text@.len() && wrapper.covers(
                        lv[k],
                    ),
                text@.len() <= 0xffff,
                width <= 0xffff * 0xffff_ffff,
                width == widest(lv.take(i as int), wrapper.advances()),
            decreases lines.len() - i,
        {
            assert(lv[i as int] == lines[i as int]@);
            let w = wrapper.get_width(lines[i].as_str());
            assert(lv.take(i + 1).drop_last() =~= lv.take(i as int));
            if w > width {
                width = w;
            }
            i += 1;
        }
        assert(lv.take(i as int) =~= lv);
        Some(ProcessedText { lines, width })
    }
}

proof fn lemma_text_lines_within(s: Seq<char>)
    ensures
        forall|k: int|
            0 <= k < text_lines(s).len() ==> (#[trigger] text_lines(s)[k]).len() <= s.len()
                && forall|j: int| 0 <= j < text_lines(s)[k].len() ==> s.contains(#[trigger] text_lines(s)[k][j]),
    decreases s.len(),
{
    if s.len() > 0 {
        lemma_first_newline(s);
        let i = first_newline(s);
        if i < s.len() {
            let rest = s.skip(i + 1);
            lemma_text_lines_within(rest);
            let line = if i > 0 && s[i - 1] == '\r' {
                s.take(i - 1)
            } else {
                s.take(i)
            };
            let ls = text_lines(s);
            assert(ls == seq![line] + text_lines(rest));
            assert forall|k: int| 0 <= k < ls.len() implies (#[trigger] ls[k]).len() <= s.len()
                && forall|j: int| 0 <= j < ls[k].len() ==> s.contains(#[trigger] ls[k][j]) by {
                if k == 0 {
                    assert(ls[k] == line);
                    assert forall|j: int| 0 <= j < ls[k].len() implies s.contains(#[trigger] ls[k][j]) by {
                        assert(s[j] == ls[k][j]);
                    }
                } else {
                    assert(ls[k] == text_lines(rest)[k - 1]);
                    assert forall|j: int| 0 <= j < ls[k].len() implies s.contains(#[trigger] ls[k][j]) by {
                        assert(rest.contains(text_lines(rest)[k - 1][j]));
                        let m = choose|m: int| 0 <= m < rest.len() && rest[m] == text_lines(rest)[k - 1][j];
                        assert(s[m + i + 1] == rest[m]);
                    }
                }
            }
        } else {
            assert(text_lines(s) == seq![s]);
            assert forall|j: int| 0 <= j < s.len() implies s.contains(#[trigger] text_lines(s)[0][j]) by {
                assert(s[j] == text_lines(s)[0][j]);
            }
        }
    }
}

/// The fixed settings of a page builder: page dimensions, font size
/// (millipoints), glyph advances, the caption and whether to write the path.
pub struct SetupV {
    pub dims: Dimensions,
    pub font_size: int,
    pub advances: Map<u32, u32>,
    pub caption: Option<(Seq<Seq<char>>, int)>,
    pub include_path: bool,
}

/// The state of a page builder.
pub struct BuilderV {
    pub setup: SetupV,
    /// Finished pages, in the order they were completed.
    pub pages: Seq<PageV>,
    /// Operations of the page being filled.
    pub current: Seq<OpV>,
    /// Lines begun on the current page below its first.
    pub line_count: int,
    /// Width used on the current line, in millipoints, capped at the text width.
    pub line_width: int,
    /// Whether the current file has given a line of text.
    pub has_text: bool,
    /// Files counted so far.
    pub processed: int,
    /// Path of the current file.
    pub path: Seq<char>,
    /// Ordinal of the current file.
    pub index: int,
}

/// Line height for a font size: 1.2 times it.
pub open spec fn line_height(font_size: int) -> int {
    font_size * 6 / 5
}

/// How many lines fit in `text_height` micrometres at `font_size` millipoints
/// with a line height of 1.2 times the font size, rounded down.
pub open spec fn lines_per_page(text_height: int, font_size: int) -> int {
    text_height * 300 / (127 * font_size)
}

/// The text width, in millipoints.
pub open spec fn body_width(s: SetupV) -> int {
    um_to_mpt(s.dims.text_width())
}

/// The most lines below the first on one page.
pub open spec fn max_lines(s: SetupV) -> int {
    lines_per_page(s.dims.text_height(), s.font_size)
}

/// Baseline of the header line, in millipoints.
pub open spec fn header_y(d: Dimensions) -> int {
    um_to_mpt(d.height as int) - um_to_mpt(HEADER_OFFSET as int)
}

/// Each line written and ended.
pub open spec fn text_ops(lines: Seq<Seq<char>>) -> Seq<OpV>
    decreases lines.len(),
{
    if lines.len() == 0 {
        seq![]
    } else {
        text_ops(lines.drop_last()) + seq![OpV::WriteText(lines.last()), OpV::AddLineBreak]
    }
}

/// The caption, right-aligned at the top of the page.
pub open spec fn caption_ops(s: SetupV) -> Seq<OpV> {
    match s.caption {
        None => seq![],
        Some(c) => seq![
            OpV::ResetTextMatrix,
            OpV::SetTextCursor(
                um_to_mpt(s.dims.width - s.dims.margin_right) - c.1,
                header_y(s.dims),
            ),
        ] + text_ops(c.0),
    }
}

/// Room for the path beside the caption, in millipoints.
pub open spec fn path_width(s: SetupV) -> int {
    let room = match s.caption {
        None => body_width(s),
        Some(c) => body_width(s) - c.1 - um_to_mpt(CAPTION_GAP as int),
    };
    if room > 0 {
        room
    } else {
        0
    }
}

/// The texts of wrapped lines.
pub open spec fn line_texts(lines: Seq<(Seq<char>, int)>) -> Seq<Seq<char>> {
    lines.map_values(|l: (Seq<char>, int)| l.0)
}

/// The path, wrapped to the room beside the caption, where it is shown.
pub open spec fn path_ops(s: SetupV, path: Seq<char>) -> Seq<OpV> {
    if s.include_path {
        let w = path_width(s);
        seq![OpV::ResetTextMatrix, OpV::SetTextCursor(um_to_mpt(s.dims.margin_left as int), header_y(s.dims))]
            + text_ops(line_texts(wrapped_lines(path, advances_in(s.advances, path), w, w)))
    } else {
        seq![]
    }
}

/// The operations that open a page of `path`: font set-up, caption, path,
/// and the cursor moved to the top left of the body.
pub open spec fn header_ops(s: SetupV, path: Seq<char>) -> Seq<OpV> {
    seq![
        OpV::StartTextSection,
        OpV::SetLineHeight(line_height(s.font_size)),
        OpV::SetFontSize(s.font_size),
    ] + caption_ops(s) + path_ops(s, path) + seq![
        OpV::ResetTextMatrix,
        OpV::SetTextCursor(
            um_to_mpt(s.dims.margin_left as int),
            um_to_mpt(s.dims.height - s.dims.margin_top),
        ),
        OpV::SetFillTextRendering,
    ]
}

/// The current page, finished and tagged with the file's ordinal.
pub open spec fn save_page(b: BuilderV) -> BuilderV {
    BuilderV { pages: b.pages.push(PageV { ops: b.current, ordinal: b.index }), current: seq![], ..b }
}

/// The header of a page of the current file, appended.
pub open spec fn start_page(b: BuilderV) -> BuilderV {
    BuilderV { current: b.current + header_ops(b.setup, b.path), ..b }
}

/// A new line: a line break, or, past the last line of the page, the page
/// finished and a new one started for the same file.
pub open spec fn new_line(b: BuilderV) -> BuilderV {
    if b.line_count + 1 > max_lines(b.setup) {
        BuilderV { line_count: 0, ..start_page(save_page(b)) }
    } else {
        BuilderV { line_count: b.line_count + 1, current: b.current.push(OpV::AddLineBreak), ..b }
    }
}

/// A file of text begun: its first page started.
pub open spec fn begin_text_file(b: BuilderV, path: Seq<char>, index: int) -> BuilderV {
    start_page(
        BuilderV {
            current: seq![],
            path,
            index,
            line_count: 0,
            line_width: 0,
            has_text: false,
            ..b
        },
    )
}

/// Width on the line after adding `w` to `line_width`, capped at the text width.
pub open spec fn advance_width(s: SetupV, line_width: int, w: int) -> int {
    if line_width + w < body_width(s) {
        line_width + w
    } else {
        body_width(s)
    }
}

/// Writes fragment `j` onward of a wrapped run, each after the first on a new line.
pub open spec fn fragments(b: BuilderV, lines: Seq<(Seq<char>, int)>, j: int) -> BuilderV
    decreases lines.len() - j,
{
    if j < 0 || j >= lines.len() {
        b
    } else {
        let b2 = if j == 0 {
            b
        } else {
            BuilderV { line_width: 0, ..new_line(b) }
        };
        let b3 = BuilderV {
            current: b2.current.push(OpV::WriteText(lines[j].0)),
            line_width: advance_width(b.setup, b2.line_width, lines[j].1),
            ..b2
        };
        fragments(b3, lines, j + 1)
    }
}

/// The lines a run of `text` is wrapped into: the first against the room left
/// on the current line, the others against the full text width.
pub open spec fn run_lines(b: BuilderV, text: Seq<char>) -> Seq<(Seq<char>, int)> {
    let maxw = body_width(b.setup);
    let remaining = if b.line_width < maxw {
        maxw - b.line_width
    } else {
        0
    };
    wrapped_lines(text, advances_in(b.setup.advances, text), remaining, maxw)
}

/// A run written in its colour: whole where it fits on the current line,
/// else wrapped.
pub open spec fn push_run(b: BuilderV, color: Rgb, text: Seq<char>) -> BuilderV {
    let lines = run_lines(b, text);
    let b1 = BuilderV { current: b.current.push(OpV::SetFillColor(color)), ..b };
    if lines.len() == 1 {
        BuilderV {
            current: b1.current.push(OpV::WriteText(text)),
            line_width: advance_width(b.setup, b.line_width, lines[0].1),
            ..b1
        }
    } else {
        fragments(b1, lines, 0)
    }
}

/// Runs `i` onward written.
pub open spec fn push_runs(b: BuilderV, runs: Seq<(Rgb, Seq<char>)>, i: int) -> BuilderV
    decreases runs.len() - i,
{
    if i < 0 || i >= runs.len() {
        b
    } else {
        push_runs(push_run(b, runs[i].0, runs[i].1), runs, i + 1)
    }
}

/// The end of a source line: a new line, and the line's width reset.
pub open spec fn end_line(b: BuilderV) -> BuilderV {
    BuilderV { line_width: 0, ..new_line(b) }
}

/// One source line, given as its runs, written.
pub open spec fn push_line(b: BuilderV, runs: Seq<(Rgb, Seq<char>)>) -> BuilderV {
    end_line(push_runs(BuilderV { has_text: true, ..b }, runs, 0))
}

/// The end of a file: its last page kept where the file gave text,
/// dropped where it gave none.
pub open spec fn end_file(b: BuilderV) -> BuilderV {
    if b.has_text {
        save_page(b)
    } else {
        BuilderV { current: seq![], ..b }
    }
}

/// Runs viewed as colour and text.
pub open spec fn runs_view(runs: Seq<StyledRun>) -> Seq<(Rgb, Seq<char>)> {
    runs.map_values(|r: StyledRun| (r.color, r.text@))
}

/// A file counted as processed.
pub open spec fn count_file(b: BuilderV) -> BuilderV {
    BuilderV { processed: b.processed + 1, ..b }
}

/// Pixels in `um` micrometres at 300 dots per inch, rounded down.
pub open spec fn page_px(um: int) -> int {
    um * 3 / 254
}

/// Where a `width` by `height` pixel image goes on a page of `d`: scaled by
/// the smaller of the two ratios of page to image size (at 300 dpi), and
/// turned a quarter clockwise about half its scaled size where it is more
/// than 1.25 times as wide as it is high.
pub open spec fn image_placement(d: Dimensions, width: int, height: int) -> ImagePlacement {
    let px = page_px(d.width as int);
    let py = page_px(d.height as int);
    let num = if px * height <= py * width {
        px
    } else {
        py
    };
    let den = if px * height <= py * width {
        width
    } else {
        height
    };
    ImagePlacement {
        scale_num: num as u64,
        scale_den: den as u64,
        rotation_center: if 4 * width > 5 * height {
            Some(PixelPoint { x: (width * num / (2 * den)) as u64, y: (height * num / (2 * den)) as u64 })
        } else {
            None
        },
    }
}

/// A page holding the image with asset index `id`, under the page header of `path`.
pub open spec fn image_page(b: BuilderV, path: Seq<char>, index: int, id: int, width: int, height: int) -> BuilderV {
    let b1 = begin_text_file(b, path, index);
    save_page(
        BuilderV {
            current: b1.current.push(OpV::UseImage(id, image_placement(b.setup.dims, width, height))),
            ..b1
        },
    )
}

/// How a file is laid out.
#[derive(Clone, Copy, Debug, PartialEq, Eq, Structural)]
pub enum FileKind {
    /// A picture, on a page of its own.
    Image,
    /// Text, highlighted line by line.
    Text,
}

/// The extension of the path `p`, as `Path::extension` finds it.
pub uninterp spec fn path_extension(p: Seq<char>) -> Option<Seq<char>>;

/// Relies on `Path::extension`: the extension of the last component of `p`.
#[verifier::external_body]
pub(crate) fn extension_of(p: &str) -> (r: Option<String>)
    ensures
        r matches Some(e) ==> path_extension(p@) == Some(e@),
        r is None ==> path_extension(p@) is None,
{
    std::path::Path::new(p).extension().and_then(|e| e.to_str()).map(|e| e.to_string())
}

/// Extensions of the image formats that get a page of their own.
pub open spec fn image_extension(e: Seq<char>) -> bool {
    e == seq!['j', 'p', 'g'] || e == seq!['j', 'p', 'e', 'g'] || e == seq!['p', 'n', 'g'] || e
        == seq!['i', 'c', 'o'] || e == seq!['b', 'm', 'p'] || e == seq!['w', 'e', 'b', 'p']
}

/// The layout of the file at `path`: images by their extension, text otherwise.
pub open spec fn file_kind(path: Seq<char>) -> FileKind {
    match path_extension(path) {
        Some(e) => if image_extension(e) {
            FileKind::Image
        } else {
            FileKind::Text
        },
        None => FileKind::Text,
    }
}

fn is_image_extension(e: &String) -> (r: bool)
    ensures
        r == image_extension(e@),
{
    let c = crate::text_manipulation::chars_of(e.as_str());
    let n = c.len();
    let r = (n == 3 && c[0] == 'j' && c[1] == 'p' && c[2] == 'g') || (n == 4 && c[0] == 'j' && c[1]
        == 'p' && c[2] == 'e' && c[3] == 'g') || (n == 3 && c[0] == 'p' && c[1] == 'n' && c[2]
        == 'g') || (n == 3 && c[0] == 'i' && c[1] == 'c' && c[2] == 'o') || (n == 3 && c[0] == 'b'
        && c[1] == 'm' && c[2] == 'p') || (n == 4 && c[0] == 'w' && c[1] == 'e' && c[2] == 'b'
        && c[3] == 'p');
    proof {
        let jpg = seq!['j', 'p', 'g'];
        let jpeg = seq!['j', 'p', 'e', 'g'];
        let png = seq!['p', 'n', 'g'];
        let ico = seq!['i', 'c', 'o'];
        let bmp = seq!['b', 'm', 'p'];
        let webp = seq!['w', 'e', 'b', 'p'];
        if n == 3 && c[0] == 'j' && c[1] == 'p' && c[2] == 'g' { assert(c@ =~= jpg); }
        if n == 4 && c[0] == 'j' && c[1] == 'p' && c[2] == 'e' && c[3] == 'g' { assert(c@ =~= jpeg); }
        if n == 3 && c[0] == 'p' && c[1] == 'n' && c[2] == 'g' { assert(c@ =~= png); }
        if n == 3 && c[0] == 'i' && c[1] == 'c' && c[2] == 'o' { assert(c@ =~= ico); }
        if n == 3 && c[0] == 'b' && c[1] == 'm' && c[2] == 'p' { assert(c@ =~= bmp); }
        if n == 4 && c[0] == 'w' && c[1] == 'e' && c[2] == 'b' && c[3] == 'p' { assert(c@ =~= webp); }
        if c@ == jpg { assert(c@[0] == 'j' && c@[1] == 'p' && c@[2] == 'g'); }
        if c@ == jpeg { assert(c@[0] == 'j' && c@[1] == 'p' && c@[2] == 'e' && c@[3] == 'g'); }
        if c@ == png { assert(c@[0] == 'p' && c@[1] == 'n' && c@[2] == 'g'); }
        if c@ == ico { assert(c@[0] == 'i' && c@[1] == 'c' && c@[2] == 'o'); }
        if c@ == bmp { assert(c@[0] == 'b' && c@[1] == 'm' && c@[2] == 'p'); }
        if c@ == webp { assert(c@[0] == 'w' && c@[1] == 'e' && c@[2] == 'b' && c@[3] == 'p'); }
    }
    r
}

/// The layout of the file at `path`.
pub fn file_kind_of(path: &str) -> (r: FileKind)
    ensures
        r == file_kind(path@),
{
    match extension_of(path) {
        Some(e) => if is_image_extension(&e) {
            FileKind::Image
        } else {
            FileKind::Text
        },
        None => FileKind::Text,
    }
}

/// Where an image of `width` by `height` pixels goes on a page of `dims`.
/// It is turned exactly where it is more than 1.25 times as wide as high.
pub fn image_placement_for(dims: &Dimensions, width: u32, height: u32) -> (r: ImagePlacement)
    requires
        width > 0,
        height > 0,
    ensures
        r == image_placement(*dims, width as int, height as int),
        r.rotation_center is Some <==> 4 * width > 5 * height,
{
    let px = dims.width as u64 * 3 / 254;
    let py = dims.height as u64 * 3 / 254;
    let w = width as u64;
    let h = height as u64;
    assert(px * h <= 0xffff_ffff * 0xffff_ffff) by (nonlinear_arith)
        requires px <= 0xffff_ffff, h <= 0xffff_ffff;
    assert(py * w <= 0xffff_ffff * 0xffff_ffff) by (nonlinear_arith)
        requires py <= 0xffff_ffff, w <= 0xffff_ffff;
    let (num, den) = if px * h <= py * w {
        (px, w)
    } else {
        (py, h)
    };
    let rotation_center = if 4 * w > 5 * h {
        assert(w * num <= 0xffff_ffff * 0xffff_ffff) by (nonlinear_arith)
            requires num <= 0xffff_ffff, w <= 0xffff_ffff;
        assert(h * num <= 0xffff_ffff * 0xffff_ffff) by (nonlinear_arith)
            requires num <= 0xffff_ffff, h <= 0xffff_ffff;
        Some(PixelPoint { x: w * num / (2 * den), y: h * num / (2 * den) })
    } else {
        None
    };
    ImagePlacement { scale_num: num, scale_den: den, rotation_center }
}

/// A file of text counted, begun and ended with no line gives no page: the
/// pages stay as they were and one more file is counted.
pub proof fn lemma_empty_file_no_page(b: BuilderV, path: Seq<char>, index: int)
    ensures
        end_file(begin_text_file(count_file(b), path, index)).pages == b.pages,
        end_file(begin_text_file(count_file(b), path, index)).processed == b.processed + 1,
{
}

/// Builds pages for files, one file at a time. Finished pages collect in the
/// builder until [`CodeToPdf::take_pages`] hands them on.
pub struct CodeToPdf {
    current_page_contents: Vec<Op>,
    pages: Vec<Page>,
    page_dimensions: Dimensions,
    text_wrapper: TextWrapper,
    processed_file_count: usize,
    page_text: Option<ProcessedText>,
    include_path: bool,
    path: String,
    index: usize,
    line_count: u64,
    line_width: u64,
    has_added_text: bool,
}

impl View for CodeToPdf {
    type V = BuilderV;

    closed spec fn view(&self) -> BuilderV {
        BuilderV {
            setup: SetupV {
                dims: self.page_dimensions,
                font_size: self.text_wrapper.spec_font_size() as int,
                advances: self.text_wrapper.advances(),
                caption: match self.page_text {
                    None => None,
                    Some(p) => Some(p.view()),
                },
                include_path: self.include_path,
            },
            pages: pages_view(self.pages@),
            current: ops_view(self.current_page_contents@),
            line_count: self.line_count as int,
            line_width: self.line_width as int,
            has_text: self.has_added_text,
            processed: self.processed_file_count as int,
            path: self.path@,
            index: self.index as int,
        }
    }
}

impl CodeToPdf {
    /// The builder's invariant.
    pub closed spec fn wf(&self) -> bool {
        &&& self.page_dimensions.wf()
        &&& self.text_wrapper.spec_font_size() > 0
        &&& self.line_count <= max_lines(self@.setup)
        &&& self.line_width <= body_width(self@.setup)
        &&& match self.page_text {
            None => true,
            Some(p) => p.view().1 <= 0xffff * 0xffff_ffff,
        }
    }

    /// A builder for pages of `page_dimensions`, text measured by
    /// `text_wrapper`, with `page_text` at the top right of every page and
    /// the file's path at the top left where `include_path` holds.
    pub fn new(
        page_dimensions: Dimensions,
        text_wrapper: TextWrapper,
        page_text: Option<ProcessedText>,
        include_path: bool,
    ) -> (r: Self)
        requires
            page_dimensions.wf(),
            text_wrapper.spec_font_size() > 0,
            page_text matches Some(p) ==> p.view().1 <= 0xffff * 0xffff_ffff,
        ensures
            r.wf(),
            r@.setup == (SetupV {
                dims: page_dimensions,
                font_size: text_wrapper.spec_font_size() as int,
                advances: text_wrapper.advances(),
                caption: match page_text {
                    None => None,
                    Some(p) => Some(p.view()),
                },
                include_path,
            }),
            r@.pages == Seq::<PageV>::empty(),
            r@.current == Seq::<OpV>::empty(),
            r@.processed == 0,
            !r@.has_text,
    {
        CodeToPdf {
            current_page_contents: Vec::new(),
            pages: Vec::new(),
            page_dimensions,
            text_wrapper,
            processed_file_count: 0,
            page_text,
            include_path,
            path: String::new(),
            index: 0,
            line_count: 0,
            line_width: 0,
            has_added_text: false,
        }
    }

    /// Number of files counted by [`CodeToPdf::process_file`].
    pub fn processed_file_count(&self) -> (r: usize)
        ensures
            r == self@.processed,
    {
        self.processed_file_count
    }

    /// The most lines below the first that fit on one page.
    pub fn max_lines_per_page(&self) -> (r: u64)
        requires
            self.wf(),
        ensures
            r == max_lines(self@.setup),
    {
        let h = self.page_dimensions.max_text_height() as u64;
        let fs = self.text_wrapper.font_size() as u64;
        h * 300 / (127 * fs)
    }

    fn push_op(&mut self, op: Op)
        ensures
            final(self)@ == (BuilderV { current: old(self)@.current.push(op@), ..old(self)@ }),
            final(self).wf() == old(self).wf(),
    {
        let ghost before = self.current_page_contents@;
        self.current_page_contents.push(op);
        assert(ops_view(self.current_page_contents@) =~= ops_view(before).push(op@));
    }
}

fn push_view(out: &mut Vec<Op>, op: Op)
    ensures
        ops_view(final(out)@) == ops_view(old(out)@).push(op@),
{
    let ghost before = out@;
    out.push(op);
    assert(ops_view(out@) =~= ops_view(before).push(op@));
}

fn push_text_ops(out: &mut Vec<Op>, lines: &Vec<String>)
    ensures
        ops_view(final(out)@) == ops_view(old(out)@) + text_ops(lines@.map_values(|l: String| l@)),
{
    let ghost start = ops_view(out@);
    let ghost lv = lines@.map_values(|l: String| l@);
    let mut i: usize = 0;
    while i < lines.len()
        invariant
            i <= lines.len(),
            lv == lines@.map_values(|l: String| l@),
            ops_view(out@) == start + text_ops(lv.take(i as int)),
        decreases lines.len() - i,
    {
        let ghost mid = ops_view(out@);
        push_view(out, Op::WriteText(lines[i].clone()));
        push_view(out, Op::AddLineBreak);
        assert(lv.take(i + 1).drop_last() =~= lv.take(i as int));
        assert(text_ops(lv.take(i + 1)) == text_ops(lv.take(i as int)) + seq![OpV::WriteText(lv[i as int]), OpV::AddLineBreak]);
        assert(ops_view(out@) =~= start + text_ops(lv.take(i + 1)));
        i += 1;
    }
    assert(lv.take(i as int) =~= lv);
}

fn push_wrapped_ops(out: &mut Vec<Op>, lines: &Vec<(String, u64)>)
    ensures
        ops_view(final(out)@) == ops_view(old(out)@) + text_ops(line_texts(lines_view(lines@))),
{
    let ghost start = ops_view(out@);
    let ghost lv = line_texts(lines_view(lines@));
    let mut i: usize = 0;
    while i < lines.len()
        invariant
            i <= lines.len(),
            lv == line_texts(lines_view(lines@)),
            ops_view(out@) == start + text_ops(lv.take(i as int)),
        decreases lines.len() - i,
    {
        push_view(out, Op::WriteText(lines[i].0.clone()));
        push_view(out, Op::AddLineBreak);
        assert(lv.take(i + 1).drop_last() =~= lv.take(i as int));
        assert(lv[i as int] == lines[i as int].0@);
        assert(text_ops(lv.take(i + 1)) == text_ops(lv.take(i as int)) + seq![OpV::WriteText(lv[i as int]), OpV::AddLineBreak]);
        assert(ops_view(out@) =~= start + text_ops(lv.take(i + 1)));
        i += 1;
    }
    assert(lv.take(i as int) =~= lv);
}

impl CodeToPdf {
    fn header_y(&self) -> (r: i64)
        requires
            self.wf(),
        ensures
            r == header_y(self@.setup.dims),
    {
        to_millipoints(self.page_dimensions.height) as i64 - to_millipoints(HEADER_OFFSET) as i64
    }

    fn path_width(&self) -> (r: u64)
        requires
            self.wf(),
        ensures
            r == path_width(self@.setup),
    {
        let body = to_millipoints(self.page_dimensions.max_text_width());
        let used = match &self.page_text {
            None => 0,
            Some(p) => p.width + to_millipoints(CAPTION_GAP),
        };
        if body > used {
            body - used
        } else {
            0
        }
    }

    /// The operations that open a page of the current file.
    fn header(&self) -> (r: Vec<Op>)
        requires
            self.wf(),
            covered_by(self@.setup.advances, self@.path),
        ensures
            ops_view(r@) == header_ops(self@.setup, self@.path),
    {
        let fs = self.text_wrapper.font_size() as u64;
        let hy = self.header_y();
        let left = to_millipoints(self.page_dimensions.margin_left) as i64;
        let mut out: Vec<Op> = Vec::new();
        push_view(&mut out, Op::StartTextSection);
        push_view(&mut out, Op::SetLineHeight(fs * 6 / 5));
        push_view(&mut out, Op::SetFontSize(fs));
        let ghost s1 = ops_view(out@);
        match &self.page_text {
            None => {},
            Some(p) => {
                let x = to_millipoints(self.page_dimensions.width - self.page_dimensions.margin_right)
                    as i64 - p.width as i64;
                push_view(&mut out, Op::ResetTextMatrix);
                push_view(&mut out, Op::SetTextCursor(x, hy));
                push_text_ops(&mut out, &p.lines);
            },
        }
        assert(ops_view(out@) =~= s1 + caption_ops(self@.setup));
        let ghost s2 = ops_view(out@);
        if self.include_path {
            push_view(&mut out, Op::ResetTextMatrix);
            push_view(&mut out, Op::SetTextCursor(left, hy));
            let w = self.path_width();
            let lines = self.text_wrapper.split_into_lines(self.path.as_str(), w, w);
            push_wrapped_ops(&mut out, &lines);
        }
        assert(ops_view(out@) =~= s2 + path_ops(self@.setup, self@.path));
        let top = to_millipoints(self.page_dimensions.height - self.page_dimensions.margin_top) as i64;
        push_view(&mut out, Op::ResetTextMatrix);
        push_view(&mut out, Op::SetTextCursor(left, top));
        push_view(&mut out, Op::SetFillTextRendering);
        assert(ops_view(out@) =~= header_ops(self@.setup, self@.path));
        out
    }

    /// Appends the header of a page of the current file.
    fn init_page(&mut self)
        requires
            old(self).wf(),
            covered_by(old(self)@.setup.advances, old(self)@.path),
        ensures
            final(self)@ == start_page(old(self)@),
            final(self).wf(),
    {
        let mut h = self.header();
        let ghost before = self.current_page_contents@;
        self.current_page_contents.append(&mut h);
        assert(ops_view(self.current_page_contents@) =~= ops_view(before) + header_ops(
            old(self)@.setup,
            old(self)@.path,
        ));
    }

    /// Finishes the current page, tagged with the current file's ordinal.
    fn save_page(&mut self)
        requires
            old(self).wf(),
        ensures
            final(self)@ == save_page(old(self)@),
            final(self).wf(),
    {
        let mut contents: Vec<Op> = Vec::new();
        std::mem::swap(&mut contents, &mut self.current_page_contents);
        let ghost before = self.pages@;
        self.pages.push(Page { ops: contents, ordinal: self.index });
        assert(pages_view(self.pages@) =~= pages_view(before).push(
            PageV { ops: old(self)@.current, ordinal: old(self)@.index },
        ));
        assert(ops_view(self.current_page_contents@) =~= Seq::<OpV>::empty());
    }

    /// Starts a new line; past the last line of the page, finishes the page
    /// and starts the next. Returns whether a page was started.
    fn new_line(&mut self) -> (r: bool)
        requires
            old(self).wf(),
            covered_by(old(self)@.setup.advances, old(self)@.path),
        ensures
            final(self)@ == new_line(old(self)@),
            final(self).wf(),
            r == (old(self)@.line_count + 1 > max_lines(old(self)@.setup)),
    {
        let max = self.max_lines_per_page();
        if self.line_count >= max {
            self.save_page();
            self.init_page();
            self.line_count = 0;
            true
        } else {
            self.line_count = self.line_count + 1;
            self.push_op(Op::AddLineBreak);
            false
        }
    }

    /// Hands over the finished pages, in the order they were finished.
    pub fn take_pages(&mut self) -> (r: Vec<Page>)
        ensures
            pages_view(r@) == old(self)@.pages,
            final(self)@ == (BuilderV { pages: Seq::<PageV>::empty(), ..old(self)@ }),
            final(self).wf() == old(self).wf(),
    {
        let mut out: Vec<Page> = Vec::new();
        std::mem::swap(&mut out, &mut self.pages);
        assert(pages_view(self.pages@) =~= Seq::<PageV>::empty());
        out
    }

    /// The characters of `txt` whose advance is not known yet.
    pub fn missing_chars(&self, txt: &str) -> (r: Vec<char>)
        ensures
            forall|c: char|
                r@.contains(c) <==> (txt@.contains(c) && !self@.setup.advances.dom().contains(
                    c as u32,
                )),
    {
        self.text_wrapper.missing_chars(txt)
    }

    /// Records the measured advance of `ch`, in millipoints.
    pub fn set_advance(&mut self, ch: char, width: u32)
        requires
            old(self).wf(),
        ensures
            final(self)@ == (BuilderV {
                setup: SetupV {
                    advances: old(self)@.setup.advances.insert(ch as u32, width),
                    ..old(self)@.setup
                },
                ..old(self)@
            }),
            final(self).wf(),
    {
        self.text_wrapper.set_advance(ch, width);
    }
}

impl CodeToPdf {
    fn advance_width(&self, line_width: u64, w: u64) -> (r: u64)
        requires
            self.wf(),
            line_width <= body_width(self@.setup),
        ensures
            r == advance_width(self@.setup, line_width as int, w as int),
            r <= body_width(self@.setup),
    {
        let maxw = to_millipoints(self.page_dimensions.max_text_width());
        if w < maxw - line_width {
            line_width + w
        } else {
            maxw
        }
    }

    /// Writes one run in its colour, wrapping it where it does not fit.
    fn push_run(&mut self, run: &StyledRun)
        requires
            old(self).wf(),
            covered_by(old(self)@.setup.advances, old(self)@.path),
            covered_by(old(self)@.setup.advances, run.text@),
        ensures
            final(self)@ == push_run(old(self)@, run.color, run.text@),
            final(self)@.setup == old(self)@.setup,
            final(self)@.path == old(self)@.path,
            final(self).wf(),
    {
        let maxw = to_millipoints(self.page_dimensions.max_text_width());
        let remaining = if self.line_width < maxw {
            maxw - self.line_width
        } else {
            0
        };
        let lines = self.text_wrapper.split_into_lines(run.text.as_str(), remaining, maxw);
        let ghost lv = lines_view(lines@);
        assert(lv == run_lines(old(self)@, run.text@));
        self.push_op(Op::SetFillColor(run.color));
        if lines.len() == 1 {
            assert(lv[0].1 == lines[0].1 as int);
            self.push_op(Op::WriteText(run.text.clone()));
            self.line_width = self.advance_width(self.line_width, lines[0].1);
        } else {
            let ghost target = fragments(self@, lv, 0);
            let mut j: usize = 0;
            while j < lines.len()
                invariant
                    j <= lines.len(),
                    lv == lines_view(lines@),
                    self.wf(),
                    covered_by(self@.setup.advances, self@.path),
                    self@.setup == old(self)@.setup,
                    self@.path == old(self)@.path,
                    fragments(self@, lv, j as int) == target,
                decreases lines.len() - j,
            {
                if j > 0 {
                    self.new_line();
                    self.line_width = 0;
                }
                assert(lv[j as int] == (lines[j as int].0@, lines[j as int].1 as int));
                self.push_op(Op::WriteText(lines[j].0.clone()));
                self.line_width = self.advance_width(self.line_width, lines[j].1);
                j += 1;
            }
        }
    }

    /// Writes the runs of one source line, then ends the line.
    pub fn push_line(&mut self, runs: &Vec<StyledRun>)
        requires
            old(self).wf(),
            covered_by(old(self)@.setup.advances, old(self)@.path),
            forall|i: int|
                0 <= i < runs@.len() ==> covered_by(old(self)@.setup.advances, #[trigger] runs@[i].text@),
        ensures
            final(self)@ == push_line(old(self)@, runs_view(runs@)),
            final(self).wf(),
    {
        self.has_added_text = true;
        let ghost rv = runs_view(runs@);
        let ghost target = push_runs(self@, rv, 0);
        let mut i: usize = 0;
        while i < runs.len()
            invariant
                i <= runs.len(),
                rv == runs_view(runs@),
                self.wf(),
                covered_by(self@.setup.advances, self@.path),
                self@.setup == old(self)@.setup,
                self@.path == old(self)@.path,
                forall|k: int|
                    0 <= k < runs@.len() ==> covered_by(self@.setup.advances, #[trigger] runs@[k].text@),
                push_runs(self@, rv, i as int) == target,
            decreases runs.len() - i,
        {
            self.push_run(&runs[i]);
            i += 1;
        }
        self.new_line();
        self.line_width = 0;
    }

    /// Counts a file and tells how it is laid out.
    pub fn process_file(&mut self, path: &str) -> (r: FileKind)
        requires
            old(self)@.processed < usize::MAX,
        ensures
            final(self)@ == count_file(old(self)@),
            final(self).wf() == old(self).wf(),
            r == file_kind(path@),
    {
        self.processed_file_count = self.processed_file_count + 1;
        file_kind_of(path)
    }

    /// Begins a file of text: its first page is started.
    pub fn begin_text_file(&mut self, path: &str, index: usize)
        requires
            old(self).wf(),
            covered_by(old(self)@.setup.advances, path@),
        ensures
            final(self)@ == begin_text_file(old(self)@, path@, index as int),
            final(self).wf(),
    {
        self.path = path.to_owned();
        self.index = index;
        self.line_count = 0;
        self.line_width = 0;
        self.has_added_text = false;
        let mut empty: Vec<Op> = Vec::new();
        std::mem::swap(&mut empty, &mut self.current_page_contents);
        assert(ops_view(self.current_page_contents@) =~= Seq::<OpV>::empty());
        self.init_page();
    }

    /// Ends the current file: its last page is kept where the file gave a
    /// line of text, and dropped where it gave none.
    pub fn end_file(&mut self)
        requires
            old(self).wf(),
        ensures
            final(self)@ == end_file(old(self)@),
            final(self).wf(),
    {
        if self.has_added_text {
            self.save_page();
        } else {
            let mut empty: Vec<Op> = Vec::new();
            std::mem::swap(&mut empty, &mut self.current_page_contents);
            assert(ops_view(self.current_page_contents@) =~= Seq::<OpV>::empty());
        }
    }

    /// Adds a page showing the image with asset index `image_id`, of `width`
    /// by `height` pixels, under the header of `path`.
    pub fn emit_image_page(&mut self, path: &str, index: usize, image_id: usize, width: u32, height: u32)
        requires
            old(self).wf(),
            covered_by(old(self)@.setup.advances, path@),
            width > 0,
            height > 0,
        ensures
            final(self)@ == image_page(old(self)@, path@, index as int, image_id as int, width as int, height as int),
            final(self).wf(),
    {
        self.begin_text_file(path, index);
        let placement = image_placement_for(&self.page_dimensions, width, height);
        self.push_op(Op::UseImage(image_id, placement));
        self.save_page();
    }
}

/// A larger font never fits more lines on a page of the same height.
pub proof fn lemma_lines_per_page_monotone(text_height: int, small: int, large: int)
    requires
        text_height >= 0,
        0 < small <= large,
    ensures
        lines_per_page(text_height, large) <= lines_per_page(text_height, small),
{
    let x = text_height * 300;
    assert(127 * small <= 127 * large);
    lemma_div_is_ordered_by_denominator(x, 127 * small, 127 * large);
}

/// Fragments `j` onward of wrapped lines, each after a line break.
pub open spec fn continuation_ops(lines: Seq<(Seq<char>, int)>, j: int) -> Seq<OpV>
    decreases lines.len() - j,
{
    if j < 0 || j >= lines.len() {
        seq![]
    } else {
        seq![OpV::AddLineBreak, OpV::WriteText(lines[j].0)] + continuation_ops(lines, j + 1)
    }
}

proof fn lemma_fragments_lines(b: BuilderV, lines: Seq<(Seq<char>, int)>, j: int)
    requires
        1 <= j <= lines.len(),
        b.line_count + lines.len() - j <= max_lines(b.setup),
    ensures
        fragments(b, lines, j).line_count == b.line_count + lines.len() - j,
        fragments(b, lines, j).pages == b.pages,
        fragments(b, lines, j).setup == b.setup,
        fragments(b, lines, j).current == b.current + continuation_ops(lines, j),
    decreases lines.len() - j,
{
    if j < lines.len() {
        let b2 = BuilderV { line_width: 0, ..new_line(b) };
        let b3 = BuilderV {
            current: b2.current.push(OpV::WriteText(lines[j].0)),
            line_width: advance_width(b.setup, b2.line_width, lines[j].1),
            ..b2
        };
        lemma_fragments_lines(b3, lines, j + 1);
        assert(b3.current + continuation_ops(lines, j + 1) =~= b.current + continuation_ops(lines, j));
    } else {
        assert(b.current + continuation_ops(lines, j) =~= b.current);
    }
}

/// A run too long for the room left on its line is written as the lines of
/// [`run_lines`]. Each of them fits its bound (the room left for the first,
/// the text width for the others) unless it is a single glyph wider than
/// that; and, where the page has room for them, the run is written as its
/// colour, the first line, then a line break and the next line for each line
/// after the first, so the page gains exactly one line per continuation.
pub proof fn lemma_wrapped_run(b: BuilderV, color: Rgb, text: Seq<char>)
    requires
        run_lines(b, text).len() > 1,
        b.line_count + run_lines(b, text).len() - 1 <= max_lines(b.setup),
    ensures
        ({
            let lines = run_lines(b, text);
            let remaining = if b.line_width < body_width(b.setup) {
                body_width(b.setup) - b.line_width
            } else {
                0
            };
            &&& forall|k: int|
                0 <= k < lines.len() ==> (#[trigger] lines[k]).1 < line_limit(
                    remaining,
                    body_width(b.setup),
                    k,
                ) || lines[k].0.len() <= 1
            &&& push_run(b, color, text).line_count == b.line_count + lines.len() - 1
            &&& push_run(b, color, text).pages == b.pages
            &&& push_run(b, color, text).current == b.current + seq![
                OpV::SetFillColor(color),
                OpV::WriteText(lines[0].0),
            ] + continuation_ops(lines, 1)
        }),
{
    let lines = run_lines(b, text);
    let maxw = body_width(b.setup);
    let remaining = if b.line_width < maxw {
        maxw - b.line_width
    } else {
        0
    };
    let advs = advances_in(b.setup.advances, text);
    lemma_wrap_within_limits(text, advs, remaining, maxw);
    let b1 = BuilderV { current: b.current.push(OpV::SetFillColor(color)), ..b };
    let b3 = BuilderV {
        current: b1.current.push(OpV::WriteText(lines[0].0)),
        line_width: advance_width(b1.setup, b1.line_width, lines[0].1),
        ..b1
    };
    assert(fragments(b1, lines, 0) == fragments(b3, lines, 1));
    lemma_fragments_lines(b3, lines, 1);
    assert(b3.current =~= b.current + seq![OpV::SetFillColor(color), OpV::WriteText(lines[0].0)]);
}

} // verus!
