//! The paging rules of one scrape of one semester on one campus.
//!
//! The site has two quirks that these rules work around. Page 1 answers the
//! count probe with a broken page, so the count is read from page 2. And past
//! the last page the site repeats a page instead of answering with an empty
//! one, so a page whose body equals the one before it ends the scrape.
use select::document::Document;
use select::predicate::{Attr, Name, Predicate};
use vstd::prelude::*;

use crate::row::{Class, class_views, classes_from_html, page_classes, ClassView, ParseError, ParseErrorView};
use crate::text::{chars_of, parse_u32, u32_text};

verus! {

/// The page asked for to read the entry count; page 1 answers it broken.
pub const PROBE_PAGE: usize = 2;

/// The entries that the site lists on one page.
pub const PAGE_SIZE: u32 = 50;

/// The element id of the span whose inner span holds the entry count.
pub const COUNT_LABEL_ID: &'static str = "formBusca:dataTableGroup";

/// What select's `Document::from(source)` gives as the inner HTML of the first
/// `span` child of a `span` with element id `id`.
pub uninterp spec fn count_label_of(source: Seq<char>, id: Seq<char>) -> Option<Seq<char>>;

/// Relies on select's `Document::from`, `find` and `Node::inner_html`: the
/// inner HTML of the first `span` child of a `span` with the given id.
#[verifier::external_body]
fn count_label(source: &str, id: &str) -> (r: Option<String>)
    ensures
        match r {
            Some(t) => count_label_of(source@, id@) == Some(t@),
            None => count_label_of(source@, id@) is None,
        },
{
    let document = Document::from(source);
    let label = Name("span").and(Attr("id", id)).child(Name("span"));
    document.find(label).next().map(|node| node.inner_html())
}

/// The entry count that a probe page states; a page that states none counts
/// as holding no entries.
pub open spec fn entry_count(source: Seq<char>) -> nat {
    match count_label_of(source, COUNT_LABEL_ID@) {
        Some(t) => match u32_text(t) {
            Some(n) => n as nat,
            None => 0,
        },
        None => 0,
    }
}

/// The pages that hold `entries` entries.
pub open spec fn pages_for(entries: nat) -> nat {
    (entries + 49) / 50
}

/// The number of pages to fetch, read from the probe page.
pub fn page_count_from_html(source: &str) -> (r: usize)
    ensures
        r == pages_for(entry_count(source@)),
{
    let entries: u32 = match count_label(source, COUNT_LABEL_ID) {
        Some(t) => match parse_u32(&chars_of(t.as_str())) {
            Some(n) => n,
            None => 0,
        },
        None => 0,
    };
    ((entries as u64 + 49) / 50) as usize
}

/// The state of one paged scrape.
pub struct Pagination {
    /// The pages that the probe announced.
    pub page_count: usize,
    /// The page to fetch next.
    pub next_page: usize,
    /// The body of the last page taken in.
    pub previous: Option<String>,
    /// The classes of the pages taken in so far.
    pub classes: Vec<Class>,
    /// Whether a repeated or a broken page has ended the scrape.
    pub finished: bool,
}


pub struct PaginationView {
    pub page_count: nat,
    pub next_page: nat,
    pub previous: Option<Seq<char>>,
    pub classes: Seq<ClassView>,
    pub finished: bool,
}

impl View for Pagination {
    type V = PaginationView;

    open spec fn view(&self) -> PaginationView {
        PaginationView {
            page_count: self.page_count as nat,
            next_page: self.next_page as nat,
            previous: match self.previous {
                Some(p) => Some(p@),
                None => None,
            },
            classes: class_views(self.classes@),
            finished: self.finished,
        }
    }
}

/// The page to fetch next, if any.
pub open spec fn next_request(s: PaginationView) -> Option<nat> {
    if !s.finished && 1 <= s.next_page <= s.page_count {
        Some(s.next_page)
    } else {
        None
    }
}

/// The state after the page `body` was fetched, and the error that ends the
/// scrape, if any. A body equal to the one before ends the scrape and adds
/// nothing; a body without a readable table ends it with its error.
pub open spec fn after_page(s: PaginationView, body: Seq<char>) -> (PaginationView, Option<ParseErrorView>) {
    if s.previous == Some(body) {
        (PaginationView { finished: true, ..s }, None)
    } else {
        match page_classes(body) {
            Err(e) => (PaginationView { finished: true, ..s }, Some(e)),
            Ok(cs) => (
                PaginationView {
                    next_page: s.next_page + 1,
                    previous: Some(body),
                    classes: s.classes + cs,
                    ..s
                },
                None,
            ),
        }
    }
}

impl Pagination {
    /// A scrape of `page_count` pages that has fetched none yet.
    pub fn new(page_count: usize) -> (r: Pagination)
        ensures
            r@ == (PaginationView {
                page_count: page_count as nat,
                next_page: 1,
                previous: None,
                classes: Seq::empty(),
                finished: false,
            }),
    {
        let r = Pagination { page_count, next_page: 1, previous: None, classes: Vec::new(), finished: false };
        assert(r@.classes =~= Seq::<ClassView>::empty());
        r
    }

    /// The page to fetch next, if any: pages go in increasing order from 1.
    pub fn next_request(&self) -> (r: Option<usize>)
        ensures
            match r {
                Some(i) => next_request(self@) == Some(i as nat),
                None => next_request(self@) is None,
            },
    {
        if !self.finished && 1 <= self.next_page && self.next_page <= self.page_count {
            Some(self.next_page)
        } else {
            None
        }
    }

    /// Takes in the body of the page that `next_request` asked for.
    pub fn receive(&mut self, body: String) -> (r: Result<(), ParseError>)
        requires
            next_request(old(self)@) is Some,
            old(self).page_count < usize::MAX,
        ensures
            final(self)@ == after_page(old(self)@, body@).0,
            match r {
                Ok(()) => after_page(old(self)@, body@).1 is None,
                Err(e) => after_page(old(self)@, body@).1 == Some(e@),
            },
    {
        let repeated = match &self.previous {
            Some(p) => *p == body,
            None => false,
        };
        if repeated {
            self.finished = true;
            return Ok(());
        }
        match classes_from_html(body.as_str()) {
            Err(e) => {
                self.finished = true;
                Err(e)
            },
            Ok(mut cs) => {
                let ghost before = self.classes@;
                let ghost added = cs@;
                self.classes.append(&mut cs);
                assert(class_views(self.classes@) =~= class_views(before) + class_views(added));
                self.next_page = self.next_page + 1;
                self.previous = Some(body);
                Ok(())
            },
        }
    }

    /// The classes of every page taken in.
    pub fn into_classes(self) -> (r: Vec<Class>)
        ensures
            class_views(r@) == self@.classes,
    {
        self.classes
    }
}

/// A page whose body equals the one before ends the scrape: it adds no
/// classes and no further page is asked for.
pub proof fn repeated_page_ends_scrape(s: PaginationView, body: Seq<char>)
    requires
        s.previous == Some(body),
    ensures
        after_page(s, body).0.classes == s.classes,
        after_page(s, body).1 is None,
        next_request(after_page(s, body).0) is None,
{
}

/// Pages are asked for in increasing order: a page taken in without error
/// moves the next request one page on.
pub proof fn pages_go_in_order(s: PaginationView, body: Seq<char>)
    requires
        next_request(s) is Some,
        s.previous != Some(body),
        page_classes(body) is Ok,
    ensures
        after_page(s, body).0.next_page == s.next_page + 1,
        after_page(s, body).0.classes == s.classes + page_classes(body)->Ok_0,
{
}

/// The state after the pages `bodies` are taken in one by one, for as long
/// as a page is asked for and none has failed.
pub open spec fn run_pages(s: PaginationView, bodies: Seq<Seq<char>>) -> PaginationView
    decreases bodies.len(),
{
    if bodies.len() == 0 || next_request(s) is None {
        s
    } else {
        let (n, e) = after_page(s, bodies[0]);
        if e is Some {
            n
        } else {
            run_pages(n, bodies.drop_first())
        }
    }
}

/// The pages asked for while the pages `bodies` are taken in.
pub open spec fn requested_pages(s: PaginationView, bodies: Seq<Seq<char>>) -> Seq<nat>
    decreases bodies.len(),
{
    if bodies.len() == 0 || next_request(s) is None {
        Seq::empty()
    } else {
        let (n, e) = after_page(s, bodies[0]);
        if e is Some {
            seq![s.next_page]
        } else {
            seq![s.next_page] + requested_pages(n, bodies.drop_first())
        }
    }
}

/// The classes of the pages `bodies`, in order.
pub open spec fn classes_of_pages(bodies: Seq<Seq<char>>) -> Seq<ClassView>
    decreases bodies.len(),
{
    if bodies.len() == 0 {
        Seq::empty()
    } else {
        classes_of_pages(bodies.drop_last()) + page_classes(bodies.last())->Ok_0
    }
}

/// A fresh scrape of `page_count` pages.
pub open spec fn fresh(page_count: nat) -> PaginationView {
    PaginationView { page_count, next_page: 1, previous: None, classes: Seq::empty(), finished: false }
}

/// The state after the first `j` pages were taken in without a repeat.
pub open spec fn state_after(page_count: nat, bodies: Seq<Seq<char>>, j: int) -> PaginationView {
    PaginationView {
        page_count,
        next_page: (j + 1) as nat,
        previous: if j == 0 { None } else { Some(bodies[j - 1]) },
        classes: classes_of_pages(bodies.take(j)),
        finished: false,
    }
}

proof fn lemma_fresh_page(page_count: nat, bodies: Seq<Seq<char>>, j: int)
    requires
        0 <= j < bodies.len(),
        j + 1 <= page_count,
        j > 0 ==> bodies[j] != bodies[j - 1],
        page_classes(bodies[j]) is Ok,
    ensures
        next_request(state_after(page_count, bodies, j)) == Some((j + 1) as nat),
        after_page(state_after(page_count, bodies, j), bodies[j]) == (state_after(page_count, bodies, j + 1), None::<ParseErrorView>),
{
    let s = state_after(page_count, bodies, j);
    assert(bodies.take(j + 1).drop_last() =~= bodies.take(j));
    assert(bodies.take(j + 1).last() == bodies[j]);
    assert(s.previous != Some(bodies[j]));
    let n = after_page(s, bodies[j]).0;
    assert(n.classes == state_after(page_count, bodies, j + 1).classes);
}

proof fn lemma_repeated_page(page_count: nat, bodies: Seq<Seq<char>>, j: int)
    requires
        1 <= j < bodies.len(),
        j + 1 <= page_count,
        bodies[j] == bodies[j - 1],
    ensures
        next_request(state_after(page_count, bodies, j)) == Some((j + 1) as nat),
        after_page(state_after(page_count, bodies, j), bodies[j]) == (PaginationView {
            finished: true,
            ..state_after(page_count, bodies, j)
        }, None::<ParseErrorView>),
{
}

proof fn lemma_run_from(page_count: nat, bodies: Seq<Seq<char>>, k: int, j: int)
    requires
        2 <= k <= page_count,
        k <= bodies.len(),
        0 <= j < k,
        forall|i: int| 0 <= i < k - 1 ==> (#[trigger] page_classes(bodies[i])) is Ok,
        forall|i: int| 1 <= i < k - 1 ==> #[trigger] bodies[i] != bodies[i - 1],
        bodies[k - 1] == bodies[k - 2],
    ensures
        run_pages(state_after(page_count, bodies, j), bodies.skip(j)) == (PaginationView {
            finished: true,
            ..state_after(page_count, bodies, k - 1)
        }),
        requested_pages(state_after(page_count, bodies, j), bodies.skip(j)) == Seq::new(
            (k - j) as nat,
            |i: int| (j + i + 1) as nat,
        ),
    decreases k - j,
{
    let s = state_after(page_count, bodies, j);
    let rest = bodies.skip(j);
    assert(rest[0] == bodies[j]);
    if j == k - 1 {
        lemma_repeated_page(page_count, bodies, j);
        let n = PaginationView { finished: true, ..s };
        assert(next_request(n) is None);
        assert(run_pages(s, rest) == run_pages(n, rest.drop_first()));
        assert(requested_pages(n, rest.drop_first()) =~= Seq::<nat>::empty());
        assert(requested_pages(s, rest) == seq![s.next_page] + requested_pages(n, rest.drop_first()));
        assert(requested_pages(s, rest) =~= Seq::new((k - j) as nat, |i: int| (j + i + 1) as nat));
    } else {
        if j > 0 {
            assert(bodies[j] != bodies[j - 1]);
        }
        assert(page_classes(bodies[j]) is Ok);
        lemma_fresh_page(page_count, bodies, j);
        let n = state_after(page_count, bodies, j + 1);
        assert(rest.drop_first() =~= bodies.skip(j + 1));
        assert(run_pages(s, rest) == run_pages(n, bodies.skip(j + 1)));
        assert(requested_pages(s, rest) == seq![s.next_page] + requested_pages(n, bodies.skip(j + 1)));
        lemma_run_from(page_count, bodies, k, j + 1);
        assert(requested_pages(s, rest) =~= Seq::new((k - j) as nat, |i: int| (j + i + 1) as nat));
    }
}

/// A whole scrape: where page `k` repeats page `k - 1` and the pages before
/// it decode, the scrape asks for pages 1 to `k` in order and for none after,
/// and it yields the classes of pages 1 to `k - 1` once each, whatever the
/// site would answer after page `k`.
pub proof fn repeated_page_ends_whole_scrape(page_count: nat, bodies: Seq<Seq<char>>, k: int)
    requires
        2 <= k <= page_count,
        k <= bodies.len(),
        forall|i: int| 0 <= i < k - 1 ==> (#[trigger] page_classes(bodies[i])) is Ok,
        forall|i: int| 1 <= i < k - 1 ==> #[trigger] bodies[i] != bodies[i - 1],
        bodies[k - 1] == bodies[k - 2],
    ensures
        run_pages(fresh(page_count), bodies).classes == classes_of_pages(bodies.take(k - 1)),
        next_request(run_pages(fresh(page_count), bodies)) is None,
        requested_pages(fresh(page_count), bodies) == Seq::new(k as nat, |i: int| (i + 1) as nat),
{
    assert(bodies.take(0) =~= Seq::<Seq<char>>::empty());
    assert(state_after(page_count, bodies, 0) == fresh(page_count));
    assert(bodies.skip(0) =~= bodies);
    lemma_run_from(page_count, bodies, k, 0);
}

} // verus!
