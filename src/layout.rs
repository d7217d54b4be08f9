//! Page selection and grid placement for embedding the pages of one PDF into
//! another.

use vstd::prelude::*;

verus! {

/// Which pages of a source document are requested.
#[derive(Debug, Clone, PartialEq)]
pub enum PageRange {
    /// One page (0-based); not checked against the page count.
    Single(usize),
    /// Pages `start..=end`; `end` is clamped to the last page.
    Range(usize, usize),
    /// These pages, in this order; not checked against the page count.
    Pages(Vec<usize>),
    /// Every page of the document.
    All,
}

/// Order in which a grid is filled.
#[derive(Debug, Clone, Copy, PartialEq, Eq, Structural)]
pub enum GridFillOrder {
    /// Left to right, then top to bottom.
    RowFirst,
    /// Top to bottom, then left to right.
    ColumnFirst,
}

/// The shape of a multi-page layout, without its distances.
#[derive(Debug, Clone, Copy, PartialEq, Eq, Structural)]
pub enum LayoutKind {
    /// Only the first selected page.
    FirstPageOnly,
    /// Only this page; nothing when the document does not have it.
    SpecificPage(usize),
    /// Pages stacked downwards.
    Vertical,
    /// Pages side by side, rightwards.
    Horizontal,
    /// Pages in a grid of `columns` cells per row (per column for `ColumnFirst`).
    Grid { columns: usize, fill_order: GridFillOrder },
    /// Positions and scales come from caller-supplied functions.
    Custom,
}

/// The pages `start..=end`, empty when `end < start`.
pub open spec fn inclusive_range(start: int, end: int) -> Seq<usize> {
    Seq::new(
        if start <= end { (end - start + 1) as nat } else { 0 },
        |i: int| (start + i) as usize,
    )
}

/// The pages that `range` names in a document of `total` pages.
pub open spec fn requested_pages(range: PageRange, total: nat) -> Seq<usize> {
    match range {
        PageRange::Single(p) => seq![p],
        PageRange::Range(start, end) => inclusive_range(
            start as int,
            if end < total { end as int } else { total - 1 },
        ),
        PageRange::Pages(v) => v@,
        PageRange::All => inclusive_range(0, total - 1),
    }
}

/// The pages that `range` names, every page when it is `None`.
pub open spec fn request_of(range: Option<PageRange>, total: nat) -> Seq<usize> {
    match range {
        Some(r) => requested_pages(r, total),
        None => requested_pages(PageRange::All, total),
    }
}

/// The pages placed for a request: the requested pages (all of them when no
/// range is given), cut to the first one for `FirstPageOnly`; for
/// `SpecificPage(p)`, page `p` alone, or nothing when `p` is past the end.
pub open spec fn selected_pages(range: Option<PageRange>, kind: LayoutKind, total: nat) -> Seq<
    usize,
> {
    let req = request_of(range, total);
    match kind {
        LayoutKind::FirstPageOnly => if req.len() > 0 {
            seq![req[0]]
        } else {
            req
        },
        LayoutKind::SpecificPage(p) => if p < total {
            seq![p]
        } else {
            Seq::empty()
        },
        _ => req,
    }
}

/// Pushes the pages `start..=end` onto `out`.
fn push_inclusive(out: &mut Vec<usize>, start: usize, end: usize)
    requires
        end < usize::MAX,
    ensures
        final(out)@ == old(out)@ + inclusive_range(start as int, end as int),
{
    let ghost base = out@;
    let mut p: usize = start;
    while p <= end
        invariant
            end < usize::MAX,
            start <= p <= end + 1 || (start > end && p == start),
            out@ == base + inclusive_range(start as int, p as int - 1),
        decreases end + 1 - p,
    {
        proof {
            assert(inclusive_range(start as int, p as int) =~= inclusive_range(
                start as int,
                p as int - 1,
            ).push(p));
        }
        out.push(p);
        p = p + 1;
    }
    proof {
        assert(inclusive_range(start as int, p as int - 1) =~= inclusive_range(
            start as int,
            end as int,
        ));
    }
}

/// The pages that `range` names in a document of `total_pages` pages.
pub fn requested(range: &PageRange, total_pages: usize) -> (r: Vec<usize>)
    ensures
        r@ == requested_pages(*range, total_pages as nat),
{
    let mut out: Vec<usize> = Vec::new();
    match range {
        PageRange::Single(p) => {
            out.push(*p);
            assert(out@ =~= seq![*p]);
        },
        PageRange::Range(start, end) => {
            if total_pages > 0 {
                let last: usize = if *end < total_pages {
                    *end
                } else {
                    total_pages - 1
                };
                push_inclusive(&mut out, *start, last);
                assert(out@ =~= requested_pages(*range, total_pages as nat));
            } else {
                assert(out@ =~= requested_pages(*range, total_pages as nat));
            }
        },
        PageRange::Pages(v) => {
            out = v.clone();
            assert(out@ =~= v@);
        },
        PageRange::All => {
            if total_pages > 0 {
                push_inclusive(&mut out, 0, total_pages - 1);
                assert(out@ =~= requested_pages(*range, total_pages as nat));
            } else {
                assert(out@ =~= requested_pages(*range, total_pages as nat));
            }
        },
    }
    out
}

/// The pages to place, in placement order: the requested pages (every page
/// when `range` is `None`), cut to the first one for `FirstPageOnly`, and
/// replaced by the one page of `SpecificPage` (nothing when the document
/// does not have that page).
pub fn determine_pages(range: &Option<PageRange>, kind: LayoutKind, total_pages: usize) -> (r: Vec<
    usize,
>)
    ensures
        r@ == selected_pages(*range, kind, total_pages as nat),
{
    let req = match range {
        Some(rg) => requested(rg, total_pages),
        None => requested(&PageRange::All, total_pages),
    };
    match kind {
        LayoutKind::FirstPageOnly => {
            if req.len() > 0 {
                let first = req[0];
                let mut out: Vec<usize> = Vec::new();
                out.push(first);
                assert(out@ =~= seq![first]);
                out
            } else {
                req
            }
        },
        LayoutKind::SpecificPage(p) => {
            let mut out: Vec<usize> = Vec::new();
            if p < total_pages {
                out.push(p);
                assert(out@ =~= seq![p]);
            } else {
                assert(out@ =~= Seq::<usize>::empty());
            }
            out
        },
        _ => req,
    }
}

/// Under `FirstPageOnly` at most one page is placed, whatever range is
/// requested: the first requested page, when there is one.
pub proof fn lemma_first_page_only_places_one(range: Option<PageRange>, total: nat)
    ensures
        selected_pages(range, LayoutKind::FirstPageOnly, total).len() <= 1,
        request_of(range, total).len() > 0 ==> selected_pages(
            range,
            LayoutKind::FirstPageOnly,
            total,
        ) == seq![request_of(range, total)[0]],
{
}

/// Under `SpecificPage(p)`, whatever range is requested, exactly page `p` is
/// placed when the document has it, and nothing otherwise.
pub proof fn lemma_specific_page(range: Option<PageRange>, p: usize, total: nat)
    ensures
        p < total ==> selected_pages(range, LayoutKind::SpecificPage(p), total) == seq![p],
        p >= total ==> selected_pages(range, LayoutKind::SpecificPage(p), total).len() == 0,
{
}

} // verus!
