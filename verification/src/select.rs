//! Which pages an operation visits: a caller's page selection checked
//! against the document, and what happens to a page whose work fails.

use vstd::prelude::*;
use vstd::string::StringExecFns;
use crate::status::{FfiError, FfiResult, LITEPARSE_STATUS_INVALID_ARGUMENT, LITEPARSE_STATUS_PARSE_ERROR};
use crate::text::{decimal, push_decimal};

verus! {

/// The most pages one call may select.
pub const MAX_SELECTED_PAGES: usize = 100_000;

/// A caller's page list; an empty list selects every page.
pub fn page_numbers(pages: Option<Vec<u32>>) -> (r: Option<Vec<u32>>)
    ensures
        r == (match pages {
            Some(v) => if v@.len() == 0 {
                None
            } else {
                Some(v)
            },
            None => None,
        }),
{
    match pages {
        Some(v) => if v.len() == 0 {
            None
        } else {
            Some(v)
        },
        None => None,
    }
}

/// Whether `p` is a page of a document of `total` pages.
pub open spec fn in_document(p: u32, total: u32) -> bool {
    1 <= p <= total
}

/// Index of the first page of `pages` outside the document.
pub open spec fn first_outside(pages: Seq<u32>, total: u32) -> int
    decreases pages.len(),
{
    if pages.len() == 0 {
        0
    } else if !in_document(pages[0], total) {
        0
    } else {
        1 + first_outside(pages.drop_first(), total)
    }
}

proof fn lemma_first_outside(pages: Seq<u32>, total: u32)
    ensures
        0 <= first_outside(pages, total) <= pages.len(),
        forall|i: int| 0 <= i < first_outside(pages, total) ==> in_document(#[trigger] pages[i], total),
        first_outside(pages, total) < pages.len() ==> !in_document(pages[first_outside(pages, total)], total),
    decreases pages.len(),
{
    if pages.len() > 0 && in_document(pages[0], total) {
        lemma_first_outside(pages.drop_first(), total);
        assert forall|i: int| 0 <= i < first_outside(pages, total) implies in_document(
            #[trigger] pages[i],
            total,
        ) by {
            if i > 0 {
                assert(pages[i] == pages.drop_first()[i - 1]);
            }
        }
    }
}

/// Strictly ascending.
pub open spec fn ascending(s: Seq<u32>) -> bool {
    forall|i: int, j: int| 0 <= i < j < s.len() ==> s[i] < s[j]
}

/// The message for a page outside the document.
pub open spec fn out_of_range_message(page: u32, total: u32) -> Seq<char> {
    "page "@ + decimal(page as nat) + " is out of range (document has "@ + decimal(total as nat)
        + " pages)"@
}

/// The message for a selection over the limit.
pub open spec fn too_many_message(n: nat) -> Seq<char> {
    "selection of "@ + decimal(n) + " pages exceeds the limit of "@ + decimal(
        MAX_SELECTED_PAGES as nat,
    ) + "; parse in several calls"@
}

/// The distinct pages of a selection, ascending.
pub open spec fn selected(pages: Seq<u32>, total: u32) -> Seq<u32> {
    Seq::new(total as nat, |i: int| (i + 1) as u32).filter(|p: u32| pages.contains(p))
}

/// Check a selection against a document of `total` pages: every page
/// must lie in it, and the distinct pages, ascending, must number at most
/// `MAX_SELECTED_PAGES`. No selection selects every page.
#[verifier::loop_isolation(false)]
pub fn selection(total: u32, pages: Option<Vec<u32>>) -> (r: FfiResult<Option<Vec<u32>>>)
    ensures
        pages is None ==> r == FfiResult::<Option<Vec<u32>>>::Ok(None),
        pages matches Some(v) ==> {
            let i = first_outside(v@, total);
            &&& (i < v@.len()) ==> (r matches Err(e) && e.status == LITEPARSE_STATUS_INVALID_ARGUMENT
                && e.message@ == out_of_range_message(v@[i], total))
            &&& (i == v@.len() && selected(v@, total).len() > MAX_SELECTED_PAGES) ==> (r matches Err(e)
                && e.status == LITEPARSE_STATUS_INVALID_ARGUMENT && e.message@ == too_many_message(
                selected(v@, total).len(),
            ))
            &&& (i == v@.len() && selected(v@, total).len() <= MAX_SELECTED_PAGES) ==> (r matches Ok(
                Some(s),
            ) && s@ == selected(v@, total))
        },
{
    let v = match &pages {
        Some(v) => v,
        None => return Ok(None),
    };
    proof {
        lemma_first_outside(v@, total);
    }
    let mut i: usize = 0;
    while i < v.len()
        invariant
            0 <= i <= v@.len(),
            forall|k: int| 0 <= k < i ==> in_document(#[trigger] v@[k], total),
            0 <= first_outside(v@, total) <= v@.len(),
            forall|k: int| 0 <= k < first_outside(v@, total) ==> in_document(#[trigger] v@[k], total),
            first_outside(v@, total) < v@.len() ==> !in_document(v@[first_outside(v@, total)], total),
        decreases v@.len() - i,
    {
        let p = v[i];
        if p < 1 || p > total {
            assert(first_outside(v@, total) == i) by {
                if first_outside(v@, total) < i {
                    assert(in_document(v@[first_outside(v@, total)], total));
                }
            }
            let mut message = String::from_str("page ");
            push_decimal(&mut message, p as u64);
            message.append(" is out of range (document has ");
            push_decimal(&mut message, total as u64);
            message.append(" pages)");
            return Err(FfiError::invalid_argument(message));
        }
        i = i + 1;
    }
    assert(first_outside(v@, total) == v@.len()) by {
        if first_outside(v@, total) < v@.len() {
            assert(in_document(v@[first_outside(v@, total)], total));
        }
    }
    let chosen = distinct_ascending(total, v);
    if chosen.len() > MAX_SELECTED_PAGES {
        let mut message = String::from_str("selection of ");
        push_decimal(&mut message, chosen.len() as u64);
        message.append(" pages exceeds the limit of ");
        push_decimal(&mut message, MAX_SELECTED_PAGES as u64);
        message.append("; parse in several calls");
        return Err(FfiError::invalid_argument(message));
    }
    Ok(Some(chosen))
}

/// The distinct pages of `pages`, ascending, by marking each page of the
/// document that occurs.
fn distinct_ascending(total: u32, pages: &Vec<u32>) -> (r: Vec<u32>)
    requires
        forall|k: int| 0 <= k < pages@.len() ==> in_document(#[trigger] pages@[k], total),
    ensures
        r@ == selected(pages@, total),
{
    let mut marked: Vec<bool> = Vec::new();
    let mut n: u32 = 0;
    while n < total
        invariant
            n <= total,
            marked@.len() == n,
            forall|k: int| 0 <= k < n ==> !(#[trigger] marked@[k]),
        decreases total - n,
    {
        marked.push(false);
        n = n + 1;
    }
    let mut i: usize = 0;
    while i < pages.len()
        invariant
            0 <= i <= pages@.len(),
            marked@.len() == total,
            forall|k: int| 0 <= k < pages@.len() ==> in_document(#[trigger] pages@[k], total),
            forall|q: int|
                0 <= q < total ==> (#[trigger] marked@[q] <==> pages@.take(i as int).contains((q + 1) as u32)),
        decreases pages@.len() - i,
    {
        let p = pages[i];
        marked.set((p - 1) as usize, true);
        proof {
            assert forall|q: int| 0 <= q < total implies (#[trigger] marked@[q] <==> pages@.take(
                i + 1,
            ).contains((q + 1) as u32)) by {
                let t = pages@.take(i + 1);
                assert(t =~= pages@.take(i as int).push(p));
                if pages@.take(i as int).contains((q + 1) as u32) {
                    let j = choose|j: int| 0 <= j < i && pages@.take(i as int)[j] == (q + 1) as u32;
                    assert(t[j] == (q + 1) as u32);
                }
                if t.contains((q + 1) as u32) && (q + 1) as u32 != p {
                    let j = choose|j: int| 0 <= j < i + 1 && t[j] == (q + 1) as u32;
                    assert(j < i);
                    assert(pages@.take(i as int)[j] == (q + 1) as u32);
                }
                if (q + 1) as u32 == p {
                    assert(t[i as int] == p);
                }
            }
        }
        i = i + 1;
    }
    assert(pages@.take(pages@.len() as int) =~= pages@);
    let ghost all = Seq::new(total as nat, |i: int| (i + 1) as u32);
    let ghost keep = |p: u32| pages@.contains(p);
    let mut out: Vec<u32> = Vec::new();
    let mut q: u32 = 0;
    while q < total
        invariant
            q <= total,
            marked@.len() == total,
            all == Seq::new(total as nat, |i: int| (i + 1) as u32),
            keep == (|p: u32| pages@.contains(p)),
            forall|x: int| 0 <= x < total ==> (#[trigger] marked@[x] <==> pages@.contains((x + 1) as u32)),
            out@ == all.take(q as int).filter(keep),
        decreases total - q,
    {
        proof {
            assert(all.take(q + 1) =~= all.take(q as int).push((q + 1) as u32));
            all.take(q as int).lemma_filter_push((q + 1) as u32, keep);
            assert(marked@[q as int] == keep((q + 1) as u32));
        }
        if marked[q as usize] {
            out.push(q + 1);
        }
        q = q + 1;
    }
    assert(all.take(total as int) =~= all);
    out
}

/// What to do when one page's work fails: skip the page, or stop with
/// the error.
#[derive(Clone, Copy, Debug, PartialEq, Eq, Structural)]
pub enum PageFailure {
    Skip,
    Stop,
}

/// Under `continue_on_page_error` a page that fails to parse is skipped;
/// every other failure stops the operation.
pub fn on_page_failure(status: u32, continue_on_page_error: bool) -> (r: PageFailure)
    ensures
        r == (if continue_on_page_error && status == LITEPARSE_STATUS_PARSE_ERROR {
            PageFailure::Skip
        } else {
            PageFailure::Stop
        }),
{
    if continue_on_page_error && status == LITEPARSE_STATUS_PARSE_ERROR {
        PageFailure::Skip
    } else {
        PageFailure::Stop
    }
}

/// The pages an operation visits, in order: the selection, or every page
/// of the document, at most `max_pages` of them.
pub open spec fn pages_to_visit_spec(pages: Option<Seq<u32>>, page_count: u32, max_pages: usize) -> Seq<u32> {
    let all = match pages {
        Some(v) => v,
        None => Seq::new(page_count as nat, |i: int| (i + 1) as u32),
    };
    if all.len() <= max_pages {
        all
    } else {
        all.take(max_pages as int)
    }
}

pub fn pages_to_visit(pages: Option<Vec<u32>>, page_count: u32, max_pages: usize) -> (r: Vec<u32>)
    ensures
        r@ == pages_to_visit_spec(
            match pages {
                Some(v) => Some(v@),
                None => None,
            },
            page_count,
            max_pages,
        ),
{
    let all: Vec<u32> = match pages {
        Some(v) => v,
        None => {
            let mut v: Vec<u32> = Vec::new();
            let mut n: u32 = 0;
            while n < page_count
                invariant
                    n <= page_count,
                    v@ == Seq::new(n as nat, |i: int| (i + 1) as u32),
                decreases page_count - n,
            {
                v.push(n + 1);
                n = n + 1;
                assert(v@ =~= Seq::new(n as nat, |i: int| (i + 1) as u32));
            }
            v
        },
    };
    let mut out: Vec<u32> = Vec::new();
    let mut i: usize = 0;
    while i < all.len() && i < max_pages
        invariant
            0 <= i <= all@.len(),
            i <= max_pages,
            out@ == all@.take(i as int),
        decreases all@.len() - i,
    {
        out.push(all[i]);
        i = i + 1;
        assert(out@ =~= all@.take(i as int));
    }
    proof {
        if all@.len() <= max_pages {
            assert(all@.take(all@.len() as int) =~= all@);
        }
    }
    out
}

/// The first `n` pages of a document, those that `pages` names.
pub open spec fn selected_up_to(pages: Seq<u32>, n: nat) -> Seq<u32> {
    Seq::new(n, |i: int| (i + 1) as u32).filter(|p: u32| pages.contains(p))
}

proof fn lemma_selected_up_to(pages: Seq<u32>, n: nat)
    requires
        n <= u32::MAX,
    ensures
        ascending(selected_up_to(pages, n)),
        forall|i: int|
            0 <= i < selected_up_to(pages, n).len() ==> 1 <= #[trigger] selected_up_to(pages, n)[i] <= n,
        forall|p: u32| #[trigger] selected_up_to(pages, n).contains(p) <==> (1 <= p <= n && pages.contains(p)),
    decreases n,
{
    let keep = |p: u32| pages.contains(p);
    if n == 0 {
        assert(Seq::new(0, |i: int| (i + 1) as u32) =~= Seq::<u32>::empty());
        assert(Seq::<u32>::empty().filter(keep) =~= Seq::<u32>::empty());
    } else {
        let m = (n - 1) as nat;
        lemma_selected_up_to(pages, m);
        let prev = Seq::new(m, |i: int| (i + 1) as u32);
        assert(Seq::new(n, |i: int| (i + 1) as u32) =~= prev.push(n as u32));
        prev.lemma_filter_push(n as u32, keep);
        let before = selected_up_to(pages, m);
        let after = selected_up_to(pages, n);
        if keep(n as u32) {
            assert(after == before.push(n as u32));
            assert forall|p: u32| #[trigger] after.contains(p) <==> (1 <= p <= n && pages.contains(p)) by {
                if after.contains(p) && p != n as u32 {
                    let j = choose|j: int| 0 <= j < after.len() && after[j] == p;
                    assert(before[j] == p);
                    assert(before.contains(p));
                }
                if 1 <= p <= m && pages.contains(p) {
                    assert(before.contains(p));
                    let j = choose|j: int| 0 <= j < before.len() && before[j] == p;
                    assert(after[j] == p);
                }
                if p == n as u32 {
                    assert(after[after.len() - 1] == p);
                }
            }
        } else {
            assert(after == before);
        }
    }
}

/// A selection that passes is the distinct pages it names, ascending:
/// each page the caller named occurs once, in order, and nothing else
/// does.
pub proof fn lemma_selection_sorted_distinct(pages: Seq<u32>, total: u32)
    ensures
        ascending(selected(pages, total)),
        forall|p: u32| #[trigger] selected(pages, total).contains(p) <==> (in_document(p, total) && pages.contains(p)),
        forall|i: int, j: int|
            0 <= i < j < selected(pages, total).len() ==> selected(pages, total)[i] != selected(pages, total)[j],
{
    lemma_selected_up_to(pages, total as nat);
}

} // verus!
