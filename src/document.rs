//! The document subset: pages from many builders, each tagged with the
//! ordinal of its file, and the images they show, merged once into one
//! ordered document.
use crate::code_to_pdf::{pages_view, Page, PageV};
use vstd::prelude::*;

verus! {

#[verifier::external_type_specification]
#[verifier::external_body]
pub struct ExRawImage(printpdf::RawImage);

/// The pages of `s` whose file has ordinal `k`, in their order in `s`.
pub open spec fn of_file(s: Seq<PageV>, k: int) -> Seq<PageV>
    decreases s.len(),
{
    if s.len() == 0 {
        seq![]
    } else if s.last().ordinal == k {
        of_file(s.drop_last(), k).push(s.last())
    } else {
        of_file(s.drop_last(), k)
    }
}

/// Whether the ordinals of `s` never decrease.
pub open spec fn sorted_by_file(s: Seq<PageV>) -> bool {
    forall|i: int, j: int| 0 <= i <= j < s.len() ==> s[i].ordinal <= s[j].ordinal
}

/// Where `p` goes in `t`: before the first page whose ordinal is not smaller.
pub open spec fn insert_pos(p: PageV, t: Seq<PageV>) -> int
    decreases t.len(),
{
    if t.len() == 0 {
        0
    } else if t[0].ordinal >= p.ordinal {
        0
    } else {
        1 + insert_pos(p, t.drop_first())
    }
}

/// `p` put into `t` before the first page whose ordinal is not smaller.
pub open spec fn insert_page(p: PageV, t: Seq<PageV>) -> Seq<PageV> {
    t.insert(insert_pos(p, t), p)
}

/// The pages of `s` in order of their file's ordinal; pages of one file keep
/// their order.
pub open spec fn merged(s: Seq<PageV>) -> Seq<PageV>
    decreases s.len(),
{
    if s.len() == 0 {
        seq![]
    } else {
        insert_page(s[0], merged(s.drop_first()))
    }
}

proof fn lemma_insert_pos(p: PageV, t: Seq<PageV>)
    ensures
        0 <= insert_pos(p, t) <= t.len(),
        forall|i: int| 0 <= i < insert_pos(p, t) ==> t[i].ordinal < p.ordinal,
        insert_pos(p, t) < t.len() ==> t[insert_pos(p, t)].ordinal >= p.ordinal,
    decreases t.len(),
{
    if t.len() > 0 && t[0].ordinal < p.ordinal {
        lemma_insert_pos(p, t.drop_first());
        assert forall|i: int| 0 <= i < insert_pos(p, t) implies t[i].ordinal < p.ordinal by {
            if i > 0 {
                assert(t[i] == t.drop_first()[i - 1]);
            }
        }
    }
}

proof fn lemma_of_file_append(a: Seq<PageV>, b: Seq<PageV>, k: int)
    ensures
        of_file(a + b, k) == of_file(a, k) + of_file(b, k),
    decreases b.len(),
{
    if b.len() == 0 {
        assert(a + b =~= a);
        assert(of_file(a, k) + of_file(b, k) =~= of_file(a, k));
    } else {
        assert((a + b).drop_last() =~= a + b.drop_last());
        lemma_of_file_append(a, b.drop_last(), k);
        if b.last().ordinal == k {
            assert(of_file(a, k) + of_file(b.drop_last(), k).push(b.last()) =~= (of_file(a, k)
                + of_file(b.drop_last(), k)).push(b.last()));
        }
    }
}

proof fn lemma_of_file_none(t: Seq<PageV>, k: int)
    requires
        forall|i: int| 0 <= i < t.len() ==> t[i].ordinal != k,
    ensures
        of_file(t, k) == Seq::<PageV>::empty(),
    decreases t.len(),
{
    if t.len() > 0 {
        lemma_of_file_none(t.drop_last(), k);
    }
}

proof fn lemma_of_file_single(p: PageV, k: int)
    ensures
        of_file(seq![p], k) == (if p.ordinal == k {
            seq![p]
        } else {
            Seq::<PageV>::empty()
        }),
{
    assert(seq![p].drop_last() =~= Seq::<PageV>::empty());
    assert(of_file(Seq::<PageV>::empty(), k) == Seq::<PageV>::empty());
    assert(Seq::<PageV>::empty().push(p) =~= seq![p]);
}

proof fn lemma_insert_page(p: PageV, t: Seq<PageV>, k: int)
    requires
        sorted_by_file(t),
    ensures
        sorted_by_file(insert_page(p, t)),
        of_file(insert_page(p, t), k) == (if p.ordinal == k {
            seq![p] + of_file(t, k)
        } else {
            of_file(t, k)
        }),
{
    lemma_insert_pos(p, t);
    let q = insert_pos(p, t);
    let r = insert_page(p, t);
    assert(r =~= t.take(q) + seq![p] + t.skip(q));
    assert(t =~= t.take(q) + t.skip(q));
    lemma_of_file_append(t.take(q) + seq![p], t.skip(q), k);
    lemma_of_file_append(t.take(q), seq![p], k);
    lemma_of_file_append(t.take(q), t.skip(q), k);
    lemma_of_file_single(p, k);
    if p.ordinal == k {
        lemma_of_file_none(t.take(q), k);
        assert(Seq::<PageV>::empty() + seq![p] =~= seq![p]);
        assert(Seq::<PageV>::empty() + t.skip(q) =~= t.skip(q));
    } else {
        assert(of_file(t.take(q), k) + Seq::<PageV>::empty() =~= of_file(t.take(q), k));
    }
    assert forall|i: int, j: int| 0 <= i <= j < r.len() implies r[i].ordinal <= r[j].ordinal by {
        if j < q {
        } else if j == q {
            if i < q {
                assert(r[i] == t[i]);
            }
        } else if i < q {
            assert(r[i] == t[i]);
            assert(r[j] == t[j - 1]);
        } else if i == q {
            assert(r[j] == t[j - 1]);
            assert(t[q].ordinal >= p.ordinal);
        } else {
            assert(r[i] == t[i - 1]);
            assert(r[j] == t[j - 1]);
        }
    }
}

proof fn lemma_merged(s: Seq<PageV>, k: int)
    ensures
        sorted_by_file(merged(s)),
        of_file(merged(s), k) == of_file(s, k),
    decreases s.len(),
{
    if s.len() > 0 {
        lemma_merged(s.drop_first(), k);
        lemma_insert_page(s[0], merged(s.drop_first()), k);
        assert(s =~= seq![s[0]] + s.drop_first());
        lemma_of_file_append(seq![s[0]], s.drop_first(), k);
        lemma_of_file_single(s[0], k);
        if s[0].ordinal != k {
            assert(Seq::<PageV>::empty() + of_file(s.drop_first(), k) =~= of_file(s.drop_first(), k));
        }
    }
}

proof fn lemma_of_file_member(t: Seq<PageV>, k: int)
    requires
        of_file(t, k).len() > 0,
    ensures
        exists|i: int| 0 <= i < t.len() && t[i].ordinal == k,
    decreases t.len(),
{
    if t.last().ordinal != k {
        lemma_of_file_member(t.drop_last(), k);
        let i = choose|i: int| 0 <= i < t.drop_last().len() && t.drop_last()[i].ordinal == k;
        assert(t[i] == t.drop_last()[i]);
    }
}

proof fn lemma_sorted_unique(t1: Seq<PageV>, t2: Seq<PageV>)
    requires
        sorted_by_file(t1),
        sorted_by_file(t2),
        forall|k: int| of_file(t1, k) == of_file(t2, k),
    ensures
        t1 == t2,
    decreases t1.len() + t2.len(),
{
    if t1.len() == 0 && t2.len() == 0 {
        assert(t1 =~= t2);
    } else if t1.len() == 0 {
        let m = t2.last().ordinal;
        assert(of_file(t2, m).len() > 0);
        lemma_of_file_none(t1, m);
    } else if t2.len() == 0 {
        let m = t1.last().ordinal;
        assert(of_file(t1, m).len() > 0);
        lemma_of_file_none(t2, m);
    } else {
        let m1 = t1.last().ordinal;
        let m2 = t2.last().ordinal;
        assert(of_file(t1, m1).len() > 0);
        assert(of_file(t2, m2).len() > 0);
        assert(of_file(t2, m1) == of_file(t1, m1));
        assert(of_file(t1, m2) == of_file(t2, m2));
        lemma_of_file_member(t2, m1);
        lemma_of_file_member(t1, m2);
        let i2 = choose|i: int| 0 <= i < t2.len() && t2[i].ordinal == m1;
        let i1 = choose|i: int| 0 <= i < t1.len() && t1[i].ordinal == m2;
        assert(t2[i2].ordinal <= m2);
        assert(t1[i1].ordinal <= m1);
        assert(m1 == m2);
        let a = t1.drop_last();
        let b = t2.drop_last();
        assert(sorted_by_file(a));
        assert(sorted_by_file(b));
        assert forall|k: int| of_file(a, k) == of_file(b, k) by {
            if k == m1 {
                assert(of_file(t1, k) == of_file(a, k).push(t1.last()));
                assert(of_file(t2, k) == of_file(b, k).push(t2.last()));
                assert(of_file(a, k) =~= of_file(t1, k).drop_last());
                assert(of_file(b, k) =~= of_file(t2, k).drop_last());
            }
        }
        lemma_sorted_unique(a, b);
        assert(t1.last() == of_file(t1, m1).last());
        assert(t2.last() == of_file(t2, m1).last());
        assert(t1 =~= a.push(t1.last()));
        assert(t2 =~= b.push(t2.last()));
    }
}

/// Merging is stable and sorts by file: the result is in order of ordinal,
/// and holds each file's pages in the order they were added.
pub proof fn lemma_merged_sorted_stable(s: Seq<PageV>)
    ensures
        sorted_by_file(merged(s)),
        forall|k: int| of_file(merged(s), k) == #[trigger] of_file(s, k),
{
    lemma_merged(s, 0);
    assert forall|k: int| of_file(merged(s), k) == #[trigger] of_file(s, k) by {
        lemma_merged(s, k);
    }
}

/// The merged order does not depend on when the pages of different files
/// arrived: pages added concurrently, in any interleaving that keeps each
/// file's pages in their order, merge into the document a run over the files
/// one after the other, in ordinal order, produces.
pub proof fn lemma_merge_matches_sequential(concurrent: Seq<PageV>, sequential: Seq<PageV>)
    requires
        sorted_by_file(sequential),
        forall|k: int| #[trigger] of_file(concurrent, k) == of_file(sequential, k),
    ensures
        merged(concurrent) == sequential,
{
    lemma_merged_sorted_stable(concurrent);
    assert forall|k: int| of_file(merged(concurrent), k) == of_file(sequential, k) by {
        assert(of_file(merged(concurrent), k) == of_file(concurrent, k));
    }
    lemma_sorted_unique(merged(concurrent), sequential);
}

/// Pages from any number of builders, each tagged with its file's ordinal,
/// and the images they show, by asset index.
pub struct DocumentSubset {
    x_object_map: Vec<printpdf::RawImage>,
    pages: Vec<Page>,
}

impl DocumentSubset {
    /// The pages added so far, in the order they were added.
    pub closed spec fn page_list(&self) -> Seq<PageV> {
        pages_view(self.pages@)
    }

    /// The images added so far, by asset index.
    pub closed spec fn images(&self) -> Seq<printpdf::RawImage> {
        self.x_object_map@
    }

    /// An empty subset.
    pub fn new() -> (r: Self)
        ensures
            r.page_list() == Seq::<PageV>::empty(),
            r.images() == Seq::<printpdf::RawImage>::empty(),
    {
        let r = DocumentSubset { x_object_map: Vec::new(), pages: Vec::new() };
        assert(pages_view(r.pages@) =~= Seq::<PageV>::empty());
        assert(r.x_object_map@ =~= Seq::<printpdf::RawImage>::empty());
        r
    }

    /// Adds an image; returns its asset index.
    pub fn add_image(&mut self, image: printpdf::RawImage) -> (r: usize)
        ensures
            r == old(self).images().len(),
            final(self).images() == old(self).images().push(image),
            final(self).page_list() == old(self).page_list(),
    {
        let id = self.x_object_map.len();
        self.x_object_map.push(image);
        id
    }

    /// Adds finished pages, after those already there.
    pub fn add_pages(&mut self, pages: Vec<Page>)
        ensures
            final(self).page_list() == old(self).page_list() + pages_view(pages@),
            final(self).images() == old(self).images(),
    {
        let mut pages = pages;
        let ghost added = pages@;
        let ghost before = self.pages@;
        self.pages.append(&mut pages);
        assert(pages_view(self.pages@) =~= pages_view(before) + pages_view(added));
    }

    /// The images, by asset index, and the pages in order of their file's
    /// ordinal, each file's pages in the order they were added.
    pub fn to_document(self) -> (r: (Vec<printpdf::RawImage>, Vec<Page>))
        ensures
            r.0@ == self.images(),
            pages_view(r.1@) == merged(self.page_list()),
    {
        let DocumentSubset { x_object_map, pages } = self;
        let ghost all = pages_view(pages@);
        let mut rest = pages;
        let mut out: Vec<Page> = Vec::new();
        assert(all.skip(all.len() as int) =~= Seq::<PageV>::empty());
        while rest.len() > 0
            invariant
                rest@.len() <= all.len(),
                pages_view(rest@) == all.take(rest@.len() as int),
                pages_view(out@) == merged(all.skip(rest@.len() as int)),
            decreases rest.len(),
        {
            let ghost k = rest@.len() as int;
            let ghost before = rest@;
            let p = rest.pop().unwrap();
            assert(rest@ =~= before.drop_last());
            assert(pages_view(rest@) =~= all.take(k - 1));
            assert(p@ == all[k - 1]) by {
                assert(pages_view(before)[k - 1] == before[k - 1]@);
            }
            let pos = insert_index(&out, p.ordinal);
            let ghost t = pages_view(out@);
            proof {
                assert(insert_pos(p@, t) == pos as int);
            }
            out.insert(pos, p);
            assert(pages_view(out@) =~= t.insert(pos as int, p@));
            assert(all.skip(k - 1).drop_first() =~= all.skip(k));
            assert(all.skip(k - 1)[0] == all[k - 1]);
        }
        assert(all.skip(0) =~= all);
        (x_object_map, out)
    }
}

/// Index of the first page of `out` whose ordinal is not below `ordinal`.
fn insert_index(out: &Vec<Page>, ordinal: usize) -> (r: usize)
    ensures
        r <= out@.len(),
        forall|p: PageV| p.ordinal == ordinal ==> insert_pos(p, pages_view(out@)) == r as int,
{
    let ghost t = pages_view(out@);
    let mut j: usize = 0;
    assert(t.skip(0) =~= t);
    while j < out.len() && out[j].ordinal < ordinal
        invariant
            j <= out.len(),
            t == pages_view(out@),
            forall|p: PageV|
                p.ordinal == ordinal ==> insert_pos(p, t) == j + insert_pos(p, t.skip(j as int)),
        decreases out.len() - j,
    {
        assert(t.skip(j as int).drop_first() =~= t.skip(j + 1));
        assert(t.skip(j as int)[0] == t[j as int]);
        j += 1;
    }
    proof {
        if j < out.len() {
            assert(t.skip(j as int)[0] == t[j as int]);
        }
    }
    j
}

/// The walk order of two entries of one directory: files before
/// directories; otherwise they stay as the walker has them.
pub fn entry_order(a_is_dir: bool, b_is_dir: bool) -> (r: std::cmp::Ordering)
    ensures
        (!a_is_dir && b_is_dir) <==> r == std::cmp::Ordering::Less,
        (a_is_dir && !b_is_dir) <==> r == std::cmp::Ordering::Greater,
        (a_is_dir == b_is_dir) <==> r == std::cmp::Ordering::Equal,
{
    if a_is_dir && !b_is_dir {
        std::cmp::Ordering::Greater
    } else if b_is_dir && !a_is_dir {
        std::cmp::Ordering::Less
    } else {
        std::cmp::Ordering::Equal
    }
}

} // verus!
