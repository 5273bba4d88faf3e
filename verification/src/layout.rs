//! The layout engine: a pure function from dashboard state and terminal
//! geometry to the text of one frame. Each feed cell shows a rotating
//! window of items; every item gets a fixed-width header line (marker,
//! truncated title, padding, right-aligned date, optional category tag)
//! and up to two description lines wrapped by character count.

use vstd::prelude::*;
use crate::chat::ChatTable;
use crate::dashboard::DashboardSnapshot;
use crate::feed::{FeedItem, FeedItemV};
use crate::text::{replace_all, replaced, space_seq, spaces};
use vstd::arithmetic::div_mod::{
    lemma_add_mod_noop,
    lemma_mod_bound,
    lemma_mod_equivalence,
    lemma_mod_twice,
    lemma_small_mod,
};

verus! {

/// The five styled fragments of one item's header line, in display order.
#[derive(Clone, PartialEq, Eq, Debug)]
pub struct HeaderSpans {
    pub marker: String,
    pub title: String,
    pub padding: String,
    pub date: String,
    pub tag: String,
}

pub ghost struct HeaderV {
    pub marker: Seq<char>,
    pub title: Seq<char>,
    pub padding: Seq<char>,
    pub date: Seq<char>,
    pub tag: Seq<char>,
}

impl DeepView for HeaderSpans {
    type V = HeaderV;

    open spec fn deep_view(&self) -> HeaderV {
        HeaderV {
            marker: self.marker@,
            title: self.title@,
            padding: self.padding@,
            date: self.date@,
            tag: self.tag@,
        }
    }
}

/// One line of a rendered feed cell.
#[derive(Clone, PartialEq, Eq, Debug)]
pub enum CellLine {
    /// An item's header fragments.
    Header(HeaderSpans),
    /// One wrapped description line.
    Desc(String),
    /// The drawn divider between two items.
    Divider(String),
    /// The line shown while a category has no data.
    Placeholder(String),
}

pub ghost enum CellLineV {
    Header(HeaderV),
    Desc(Seq<char>),
    Divider(Seq<char>),
    Placeholder(Seq<char>),
}

impl DeepView for CellLine {
    type V = CellLineV;

    open spec fn deep_view(&self) -> CellLineV {
        match self {
            CellLine::Header(h) => CellLineV::Header(h.deep_view()),
            CellLine::Desc(s) => CellLineV::Desc(s@),
            CellLine::Divider(s) => CellLineV::Divider(s@),
            CellLine::Placeholder(s) => CellLineV::Placeholder(s@),
        }
    }
}

/// The sizes a frame is rendered into: the inner width of the two feed
/// columns' cells, how many items each cell shows, and how many chat
/// entries are visible.
#[derive(Clone, Copy, PartialEq, Eq, Debug)]
pub struct Geometry {
    pub left_inner: usize,
    pub mid_inner: usize,
    pub visible_count: usize,
    pub chat_limit: usize,
}

pub open spec fn min_int(a: int, b: int) -> int {
    if a < b {
        a
    } else {
        b
    }
}

pub open spec fn sat_sub(a: int, b: int) -> int {
    if a >= b {
        a - b
    } else {
        0
    }
}

/// The date as displayed: its first ten characters.
pub open spec fn display_date(date: Seq<char>) -> Seq<char> {
    date.take(min_int(10, date.len() as int))
}

/// The bracketed category tag, or nothing.
pub open spec fn tag_text(tag: Option<Seq<char>>) -> Seq<char> {
    match tag {
        Some(t) => " ["@ + t + "]"@,
        None => Seq::empty(),
    }
}

pub open spec fn marker_seq() -> Seq<char> {
    seq!['\u{25C6}', ' ']
}

/// Room left for the title after the marker, date, tag and a fixed margin.
pub open spec fn max_title_len(w: int, date_len: int, tag_len: int) -> int {
    sat_sub(w, date_len + tag_len + 4)
}

/// A title over the limit is cut and given a three-dot ellipsis.
pub open spec fn truncated_title(t: Seq<char>, m: int) -> Seq<char> {
    if t.len() > m {
        t.take(sat_sub(m, 3)) + seq!['.', '.', '.']
    } else {
        t
    }
}

/// The header fragments for one item in a cell of inner width `w`.
pub open spec fn header_of(item: FeedItemV, tag: Option<Seq<char>>, w: int) -> HeaderV {
    let d = display_date(item.date);
    let g = tag_text(tag);
    let t = truncated_title(item.title, max_title_len(w, d.len() as int, g.len() as int));
    HeaderV {
        marker: marker_seq(),
        title: t,
        padding: space_seq(
            sat_sub(w, t.len() as int + d.len() as int + g.len() as int + 3),
        ),
        date: d,
        tag: g,
    }
}

/// The total character width a header occupies.
pub open spec fn header_width(h: HeaderV) -> int {
    h.marker.len() as int + h.title.len() as int + h.padding.len() as int + h.date.len() as int
        + h.tag.len() as int
}

/// Law: whenever the cell is wide enough for the reserved fields and an
/// ellipsis, the header fills the line exactly — one column short of the
/// inner width, truncated or not.
pub proof fn lemma_header_fills_width(item: FeedItemV, tag: Option<Seq<char>>, w: int)
    requires
        w >= display_date(item.date).len() + tag_text(tag).len() + 7,
    ensures
        header_width(header_of(item, tag, w)) == w - 1,
{
    let d = display_date(item.date);
    let g = tag_text(tag);
    let m = max_title_len(w, d.len() as int, g.len() as int);
    assert(m == w - d.len() - g.len() - 4);
    assert(m >= 3);
    let t = truncated_title(item.title, m);
    if item.title.len() > m {
        assert(t.len() == m);
    } else {
        assert(t.len() <= m);
    }
}

/// The description split into at most two lines of `w` characters,
/// after collapsing embedded line breaks to spaces.
pub open spec fn desc_chunks(desc: Seq<char>, w: int) -> Seq<Seq<char>> {
    let clean = replaced(desc, "\n"@, " "@);
    if clean.len() == 0 {
        Seq::empty()
    } else if clean.len() <= w {
        seq![clean]
    } else {
        seq![clean.take(w), clean.subrange(w, min_int(2 * w, clean.len() as int))]
    }
}

pub open spec fn desc_line_views(desc: Seq<char>, w: int) -> Seq<CellLineV> {
    desc_chunks(desc, w).map_values(|c: Seq<char>| CellLineV::Desc(c))
}

/// All lines of one item: its header, then its wrapped description.
pub open spec fn item_block(item: FeedItemV, tag: Option<Seq<char>>, w: int) -> Seq<CellLineV> {
    seq![CellLineV::Header(header_of(item, tag, w))] + desc_line_views(item.desc, w)
}

pub open spec fn divider_seq(w: int) -> Seq<char> {
    Seq::new(w as nat, |i: int| '\u{2500}')
}

/// The rows of a non-empty cell from slot `s` on: each visible slot shows
/// item `(offset + slot) % items.len()`, with a divider between items.
pub open spec fn cell_rows_from(
    items: Seq<FeedItemV>,
    offset: int,
    s: int,
    count: int,
    w: int,
    tag: Option<Seq<char>>,
) -> Seq<CellLineV>
    decreases count - s,
{
    if s >= count || items.len() == 0 {
        Seq::empty()
    } else {
        let block = item_block(items[(offset + s) % (items.len() as int)], tag, w);
        if s == count - 1 {
            block
        } else {
            block + seq![CellLineV::Divider(divider_seq(w))] + cell_rows_from(
                items,
                offset,
                s + 1,
                count,
                w,
                tag,
            )
        }
    }
}

/// What one feed cell shows: a placeholder while the feed is empty,
/// otherwise the rotating window of its items.
pub open spec fn cell_view(
    items: Seq<FeedItemV>,
    offset: int,
    count: int,
    w: int,
    tag: Option<Seq<char>>,
) -> Seq<CellLineV> {
    if items.len() == 0 {
        seq![CellLineV::Placeholder("   Fetching data..."@)]
    } else {
        cell_rows_from(items, offset, 0, count, w, tag)
    }
}

pub open spec fn tag_view(tag: Option<&str>) -> Option<Seq<char>> {
    match tag {
        Some(t) => Some(t@),
        None => None,
    }
}

/// Build the header fragments for one item.
pub fn make_header(item: &FeedItem, tag: Option<&str>, inner_width: usize) -> (h: HeaderSpans)
    ensures
        h.deep_view() == header_of(item@, tag_view(tag), inner_width as int),
{
    let dlen_full = item.date.as_str().unicode_len();
    let date_str = if dlen_full <= 10 {
        proof {
            assert(item.date@.take(min_int(10, item.date@.len() as int)) =~= item.date@);
        }
        item.date.clone()
    } else {
        item.date.as_str().substring_char(0, 10).to_owned()
    };
    let tag_str = match tag {
        Some(t) => {
            let mut g = String::from_str(" [");
            g.append(t);
            g.append("]");
            g
        },
        None => String::new(),
    };
    let d = date_str.as_str().unicode_len();
    let g = tag_str.as_str().unicode_len();
    let w = inner_width;
    let m = if w > d && w - d > g && w - d - g >= 4 {
        w - d - g - 4
    } else {
        0
    };
    proof {
        assert(m == max_title_len(w as int, d as int, g as int));
    }
    let tlen = item.title.as_str().unicode_len();
    let title = if tlen > m {
        let keep = if m >= 3 {
            m - 3
        } else {
            0
        };
        let mut t = item.title.as_str().substring_char(0, keep).to_owned();
        t.append("...");
        proof {
            reveal_strlit("...");
            assert(t@ =~= truncated_title(item.title@, m as int));
        }
        t
    } else {
        item.title.clone()
    };
    let tl = title.as_str().unicode_len();
    let pad = if w > d && w - d > g && w - d - g > 3 && w - d - g - 3 >= tl {
        w - d - g - 3 - tl
    } else {
        0
    };
    proof {
        assert(pad == sat_sub(w as int, tl as int + d as int + g as int + 3));
    }
    let padding = spaces(pad);
    let marker = String::from_str("\u{25C6} ");
    proof {
        reveal_strlit("\u{25C6} ");
        assert(marker@ =~= marker_seq());
    }
    HeaderSpans { marker, title, padding, date: date_str, tag: tag_str }
}

/// Wrap a description into at most two fixed-width lines.
pub fn wrap_desc(desc: &str, w: usize) -> (r: Vec<String>)
    requires
        w >= 1,
    ensures
        r.deep_view() == desc_chunks(desc@, w as int),
{
    proof {
        reveal_strlit("\n");
    }
    let clean = replace_all(desc, "\n", " ");
    let n = clean.as_str().unicode_len();
    let mut out: Vec<String> = Vec::new();
    if n == 0 {
        proof {
            assert(out.deep_view() =~= desc_chunks(desc@, w as int));
        }
        return out;
    }
    if n <= w {
        proof {
            assert(clean@.take(n as int) =~= clean@);
        }
        out.push(clean);
        proof {
            assert(out.deep_view() =~= desc_chunks(desc@, w as int));
        }
        return out;
    }
    let first = clean.as_str().substring_char(0, w).to_owned();
    let end = if n - w < w {
        n
    } else {
        w + w
    };
    let second = clean.as_str().substring_char(w, end).to_owned();
    out.push(first);
    out.push(second);
    proof {
        assert(end == min_int(2 * (w as int), clean@.len() as int));
        assert(out.deep_view() =~= desc_chunks(desc@, w as int));
    }
    out
}

/// A drawn divider of `w` line characters.
fn divider(w: usize) -> (r: String)
    ensures
        r@ == divider_seq(w as int),
{
    proof {
        reveal_strlit("\u{2500}");
    }
    let mut out = String::new();
    let mut i: usize = 0;
    while i < w
        invariant
            0 <= i <= w,
            out@.len() == i,
            forall|t: int| 0 <= t < i ==> out@[t] == '\u{2500}',
        decreases w - i,
    {
        proof {
            reveal_strlit("\u{2500}");
        }
        out.append("\u{2500}");
        i = i + 1;
    }
    proof {
        assert(out@ =~= divider_seq(w as int));
    }
    out
}

fn push_line(out: &mut Vec<CellLine>, line: CellLine)
    ensures
        final(out).deep_view() == old(out).deep_view().push(line.deep_view()),
{
    let ghost lv = line.deep_view();
    out.push(line);
    proof {
        assert(out.deep_view() =~= old(out).deep_view().push(lv));
    }
}

/// Render one feed cell: the rotating window over `feed`, `count` items
/// deep, into lines of inner width `inner_width`.
pub fn render_feed_cell(
    feed: &Vec<FeedItem>,
    offset: usize,
    count: usize,
    inner_width: usize,
    tag: Option<&str>,
) -> (r: Vec<CellLine>)
    requires
        inner_width >= 1,
        offset + count <= usize::MAX,
    ensures
        r.deep_view() == cell_view(
            feed.deep_view(),
            offset as int,
            count as int,
            inner_width as int,
            tag_view(tag),
        ),
{
    let ghost items = feed.deep_view();
    let ghost tagv = tag_view(tag);
    let ghost w = inner_width as int;
    let mut out: Vec<CellLine> = Vec::new();
    if feed.len() == 0 {
        push_line(&mut out, CellLine::Placeholder(String::from_str("   Fetching data...")));
        proof {
            assert(out.deep_view() =~= cell_view(items, offset as int, count as int, w, tagv));
        }
        return out;
    }
    let mut s: usize = 0;
    proof {
        assert(out.deep_view() =~= Seq::<CellLineV>::empty());
        assert(Seq::<CellLineV>::empty() + cell_rows_from(
            items,
            offset as int,
            0,
            count as int,
            w,
            tagv,
        ) =~= cell_rows_from(items, offset as int, 0, count as int, w, tagv));
    }
    while s < count
        invariant
            0 <= s <= count,
            inner_width >= 1,
            offset + count <= usize::MAX,
            items == feed.deep_view(),
            w == inner_width as int,
            tagv == tag_view(tag),
            items.len() == feed@.len(),
            items.len() > 0,
            cell_view(items, offset as int, count as int, w, tagv) == out.deep_view()
                + cell_rows_from(items, offset as int, s as int, count as int, w, tagv),
        decreases count - s,
    {
        let idx = (offset + s) % feed.len();
        proof {
            lemma_mod_bound((offset + s) as int, feed@.len() as int);
            assert(items[idx as int] == feed@[idx as int].deep_view());
        }
        let ghost out0 = out.deep_view();
        let item = &feed[idx];
        let header = make_header(item, tag, inner_width);
        let ghost hv = header.deep_view();
        push_line(&mut out, CellLine::Header(header));
        let lines = wrap_desc(item.desc.as_str(), inner_width);
        let ghost chunks = desc_chunks(item@.desc, w);
        let mut j: usize = 0;
        proof {
            assert(idx as int == ((offset + s) as int) % (items.len() as int));
            assert(item@ == items[(offset + s) as int % (items.len() as int)]);
            assert(hv == header_of(items[(offset + s) as int % (items.len() as int)], tagv, w));
            assert(out.deep_view() == out0.push(CellLineV::Header(hv)));
            assert(chunks.take(0).map_values(|c: Seq<char>| CellLineV::Desc(c))
                =~= Seq::<CellLineV>::empty());
            assert(out0.push(CellLineV::Header(hv)) =~= out0 + seq![CellLineV::Header(hv)]);
            assert(out.deep_view() =~= out0 + seq![
                CellLineV::Header(
                    header_of(items[(offset + s) as int % (items.len() as int)], tagv, w),
                ),
            ] + chunks.take(0).map_values(|c: Seq<char>| CellLineV::Desc(c)));
        }
        while j < lines.len()
            invariant
                0 <= j <= lines@.len(),
                lines.deep_view() == chunks,
                chunks.len() == lines@.len(),
                out.deep_view() == out0 + seq![
                    CellLineV::Header(header_of(items[(offset + s) as int % (items.len() as int)], tagv, w)),
                ] + chunks.take(j as int).map_values(|c: Seq<char>| CellLineV::Desc(c)),
            decreases lines@.len() - j,
        {
            push_line(&mut out, CellLine::Desc(lines[j].clone()));
            proof {
                assert(lines@[j as int]@ == chunks[j as int]);
                assert(chunks.take(j + 1).map_values(|c: Seq<char>| CellLineV::Desc(c)) =~= chunks
                    .take(j as int).map_values(|c: Seq<char>| CellLineV::Desc(c)).push(
                    CellLineV::Desc(chunks[j as int]),
                ));
            }
            j = j + 1;
        }
        proof {
            assert(chunks.take(chunks.len() as int) =~= chunks);
            assert(out.deep_view() =~= out0 + item_block(
                items[(offset + s) as int % (items.len() as int)],
                tagv,
                w,
            ));
        }
        if s + 1 < count {
            push_line(&mut out, CellLine::Divider(divider(inner_width)));
        }
        proof {
            let rest = cell_rows_from(items, offset as int, s as int, count as int, w, tagv);
            let block = item_block(items[(offset + s) as int % (items.len() as int)], tagv, w);
            if s as int == count - 1 {
                assert(rest == block);
                assert(cell_rows_from(items, offset as int, s + 1, count as int, w, tagv)
                    =~= Seq::<CellLineV>::empty());
                assert(out.deep_view() + cell_rows_from(
                    items,
                    offset as int,
                    s + 1,
                    count as int,
                    w,
                    tagv,
                ) =~= out0 + rest);
            } else {
                assert(rest == block + seq![CellLineV::Divider(divider_seq(w))] + cell_rows_from(
                    items,
                    offset as int,
                    s + 1,
                    count as int,
                    w,
                    tagv,
                ));
                assert(out.deep_view() =~= out0 + block + seq![CellLineV::Divider(divider_seq(w))]);
                assert(out.deep_view() + cell_rows_from(
                    items,
                    offset as int,
                    s + 1,
                    count as int,
                    w,
                    tagv,
                ) =~= out0 + rest);
            }
        }
        s = s + 1;
    }
    proof {
        assert(cell_rows_from(items, offset as int, s as int, count as int, w, tagv)
            =~= Seq::<CellLineV>::empty());
        assert(out.deep_view() + Seq::<CellLineV>::empty() =~= out.deep_view());
    }
    out
}

/// The chat entries actually shown: the last `limit` in reverse key order.
pub open spec fn chat_window(entries: Seq<(Seq<char>, Seq<char>)>, limit: int) -> Seq<
    (Seq<char>, Seq<char>),
> {
    entries.reverse().take(min_int(limit, entries.len() as int))
}

/// Select the visible chat entries: newest-sorted-key first, at most `limit`.
pub fn visible_chat(table: &ChatTable, limit: usize) -> (r: Vec<(String, String)>)
    ensures
        r.deep_view() == chat_window(table@, limit as int),
{
    let entries = table.entries();
    let n = entries.len();
    let k = if limit < n {
        limit
    } else {
        n
    };
    let mut out: Vec<(String, String)> = Vec::new();
    let mut j: usize = 0;
    while j < k
        invariant
            0 <= j <= k,
            k == min_int(limit as int, n as int),
            n == entries@.len(),
            entries.deep_view() == table@,
            out.deep_view() =~= table@.reverse().take(j as int),
        decreases k - j,
    {
        let idx = n - 1 - j;
        let pair = (entries[idx].0.clone(), entries[idx].1.clone());
        let ghost prev = out.deep_view();
        let ghost pv = pair.deep_view();
        out.push(pair);
        proof {
            assert(out.deep_view() =~= prev.push(pv));
            assert(pv == table@[n - 1 - j]);
            assert(table@.reverse()[j as int] == table@[n - 1 - j]);
            assert(out.deep_view() =~= table@.reverse().take(j + 1));
        }
        j = j + 1;
    }
    proof {
        assert(out.deep_view() =~= chat_window(table@, limit as int));
    }
    out
}

/// One rendered frame: the six feed cells in order, and the visible chat
/// entries.
#[derive(PartialEq, Eq, Debug)]
pub struct DashboardFrame {
    pub cells: Vec<Vec<CellLine>>,
    pub chat: Vec<(String, String)>,
}

/// The six cells of a frame: the first three use the left column's width,
/// the rest the middle column's.
pub open spec fn frame_cells(
    feeds: Seq<Seq<FeedItemV>>,
    offset: int,
    count: int,
    left_w: int,
    mid_w: int,
    tags: Seq<Option<Seq<char>>>,
) -> Seq<Seq<CellLineV>> {
    Seq::new(
        feeds.len(),
        |i: int|
            cell_view(
                feeds[i],
                offset,
                count,
                if i < 3 {
                    left_w
                } else {
                    mid_w
                },
                tags[i],
            ),
    )
}

/// Render a whole frame from one snapshot and one geometry. A pure
/// function: the output is fully determined by its arguments.
pub fn render_frame(
    snap: &DashboardSnapshot,
    geom: &Geometry,
    tags: &Vec<Option<String>>,
) -> (r: DashboardFrame)
    requires
        geom.left_inner >= 1,
        geom.mid_inner >= 1,
        snap.offset + geom.visible_count <= usize::MAX,
        tags@.len() == snap.feeds@.len(),
    ensures
        r.cells.deep_view() == frame_cells(
            snap.feeds.deep_view(),
            snap.offset as int,
            geom.visible_count as int,
            geom.left_inner as int,
            geom.mid_inner as int,
            tags.deep_view(),
        ),
        r.chat.deep_view() == chat_window(snap.chat@, geom.chat_limit as int),
{
    let n = tags.len();
    let mut cells: Vec<Vec<CellLine>> = Vec::new();
    let mut i: usize = 0;
    while i < n
        invariant
            0 <= i <= n,
            n == tags@.len(),
            n == snap.feeds@.len(),
            geom.left_inner >= 1,
            geom.mid_inner >= 1,
            snap.offset + geom.visible_count <= usize::MAX,
            cells.deep_view() =~= frame_cells(
                snap.feeds.deep_view(),
                snap.offset as int,
                geom.visible_count as int,
                geom.left_inner as int,
                geom.mid_inner as int,
                tags.deep_view(),
            ).take(i as int),
        decreases n - i,
    {
        let width = if i < 3 {
            geom.left_inner
        } else {
            geom.mid_inner
        };
        let tag: Option<&str> = match &tags[i] {
            Some(t) => Some(t.as_str()),
            None => None,
        };
        proof {
            assert(tag_view(tag) == tags.deep_view()[i as int]);
            assert(snap.feeds@[i as int].deep_view() == snap.feeds.deep_view()[i as int]);
        }
        let cell = render_feed_cell(&snap.feeds[i], snap.offset, geom.visible_count, width, tag);
        let ghost cv = cell.deep_view();
        let ghost prev = cells.deep_view();
        cells.push(cell);
        proof {
            assert(cells.deep_view() =~= prev.push(cv));
            assert(cv == frame_cells(
                snap.feeds.deep_view(),
                snap.offset as int,
                geom.visible_count as int,
                geom.left_inner as int,
                geom.mid_inner as int,
                tags.deep_view(),
            )[i as int]);
            assert(cells.deep_view() =~= frame_cells(
                snap.feeds.deep_view(),
                snap.offset as int,
                geom.visible_count as int,
                geom.left_inner as int,
                geom.mid_inner as int,
                tags.deep_view(),
            ).take(i + 1));
        }
        i = i + 1;
    }
    let chat = visible_chat(&snap.chat, geom.chat_limit);
    proof {
        assert(frame_cells(
            snap.feeds.deep_view(),
            snap.offset as int,
            geom.visible_count as int,
            geom.left_inner as int,
            geom.mid_inner as int,
            tags.deep_view(),
        ).take(n as int) =~= frame_cells(
            snap.feeds.deep_view(),
            snap.offset as int,
            geom.visible_count as int,
            geom.left_inner as int,
            geom.mid_inner as int,
            tags.deep_view(),
        ));
    }
    DashboardFrame { cells, chat }
}

/// Law: the layout engine is deterministic — rendering the same snapshot
/// twice with the same geometry yields identical frames. This holds
/// because every rendered part equals a function of the inputs alone.
pub proof fn lemma_layout_idempotent(
    a: DashboardFrame,
    b: DashboardFrame,
    feeds: Seq<Seq<FeedItemV>>,
    chat: Seq<(Seq<char>, Seq<char>)>,
    offset: int,
    count: int,
    left_w: int,
    mid_w: int,
    tags: Seq<Option<Seq<char>>>,
    chat_limit: int,
)
    requires
        a.cells.deep_view() == frame_cells(feeds, offset, count, left_w, mid_w, tags),
        a.chat.deep_view() == chat_window(chat, chat_limit),
        b.cells.deep_view() == frame_cells(feeds, offset, count, left_w, mid_w, tags),
        b.chat.deep_view() == chat_window(chat, chat_limit),
    ensures
        a.cells.deep_view() == b.cells.deep_view(),
        a.chat.deep_view() == b.chat.deep_view(),
{
}

/// Law: with a feed of length `n`, some offset below `n` brings item `j`
/// into slot `s` — rotation reaches every item.
pub proof fn lemma_rotation_covers(n: int, s: int, j: int)
    requires
        n > 0,
        0 <= s,
        0 <= j < n,
    ensures
        exists|o: int| 0 <= o < n && #[trigger] ((o + s) % n) == j,
{
    let o = (j - s) % n;
    lemma_mod_bound(j - s, n);
    lemma_add_mod_noop(o, s, n);
    lemma_mod_twice(j - s, n);
    lemma_add_mod_noop(j - s, s, n);
    lemma_small_mod(j as nat, n as nat);
    assert((o + s) % n == j);
}

/// Law: within one cycle of `n` offsets, distinct offsets put distinct
/// items in the same slot — no item repeats before all have been shown.
pub proof fn lemma_rotation_distinct(n: int, s: int, o1: int, o2: int)
    requires
        n > 0,
        0 <= s,
        0 <= o1 < o2 < n,
    ensures
        (o1 + s) % n != (o2 + s) % n,
{
    if (o1 + s) % n == (o2 + s) % n {
        lemma_mod_equivalence(o2 + s, o1 + s, n);
        assert(((o2 + s) - (o1 + s)) % n == 0);
        assert((o2 + s) - (o1 + s) == o2 - o1);
        lemma_small_mod((o2 - o1) as nat, n as nat);
        assert((o2 - o1) % n == o2 - o1);
    }
}

} // verus!
