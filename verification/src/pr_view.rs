//! The pages of pull requests that are kept open.
//!
//! Each page has a view of its own, so that going back to it shows it as it was
//! left. A view takes memory, so only a few are kept: the one that was not shown for
//! longest goes first.

use vstd::prelude::*;

use crate::error::AppError;
use crate::hash;
use crate::list;
use crate::shell;
use crate::text;

verus! {

/// How many pages are kept open.
pub const MAX_LIVE: usize = 6;

/// What the views of pull requests are called.
pub const LABEL_PREFIX: &'static str = "pr-view-";

/// The name of a page's view, by the hash of its address.
pub open spec fn label_of(hash: u64) -> Seq<char> {
    LABEL_PREFIX@ + hash::hex(hash as nat, 16)
}

/// The name of a page's view, by the hash of its address.
pub fn label_with(hash: u64) -> (r: String)
    ensures
        r@ == label_of(hash),
{
    text::cat(LABEL_PREFIX, &hash::hex_of(hash, 16))
}

/// The name of a page's view.
pub fn label_for(url: &str) -> (r: String)
    ensures
        r@ == label_of(hash::default_hash(url@)),
{
    label_with(hash::hash_of(url))
}

/// An address that is none.
pub fn bad_url(url: &str, cause: &str) -> (r: AppError)
    ensures
        r.says("bad PR url "@ + shell::quoted_text(url@) + ": "@ + cause@),
{
    let mut m = text::cat3("bad PR url ", &shell::quoted(url), ": ");
    m.append(cause);
    AppError::Other(m)
}

/// The views that are there, the one that was not shown for longest first.
pub struct LiveViews {
    pub labels: Vec<String>,
}

/// What is to be done to show a page.
pub struct ShowPlan {
    /// The views to hide.
    pub hide: Vec<String>,
    /// The views to close.
    pub close: Vec<String>,
}

/// Whether a view is another one than that with a name.
pub open spec fn not_named(label: Seq<char>) -> spec_fn(Seq<char>) -> bool {
    |l: Seq<char>| l != label
}

/// The views with one of them shown last.
pub open spec fn shown_last(labels: Seq<Seq<char>>, label: Seq<char>) -> Seq<Seq<char>> {
    labels.filter(not_named(label)).push(label)
}

/// How many views are to be closed.
pub open spec fn surplus(labels: Seq<Seq<char>>) -> int {
    if labels.len() > MAX_LIVE {
        labels.len() - MAX_LIVE
    } else {
        0
    }
}

impl LiveViews {
    /// The names of the views.
    pub open spec fn names(self) -> Seq<Seq<char>> {
        text::views(self.labels@)
    }

    pub fn new() -> (r: Self)
        ensures
            r.names().len() == 0,
    {
        LiveViews { labels: Vec::new() }
    }

    /// Show a page: hide the others, and where its view has to be made, close those
    /// that are too many.
    pub fn show(&mut self, label: &str, is_open: bool) -> (r: ShowPlan)
        ensures
            text::views(r.hide@) == old(self).names().filter(not_named(label@)),
            ({
                let all = shown_last(old(self).names(), label@);
                let n = if is_open {
                    0
                } else {
                    surplus(all)
                };
                final(self).names() == all.skip(n) && text::views(r.close@) == all.take(n)
            }),
    {
        let ghost names = self.names();
        let ghost p = not_named(label@);
        let mut kept: Vec<String> = Vec::new();
        let mut i: usize = 0;
        proof {
            names.take(0).lemma_filter_len(p);
            assert(text::views(kept@) =~= names.take(0).filter(p));
        }
        while i < self.labels.len()
            invariant
                i <= self.labels.len(),
                names == self.names(),
                p == not_named(label@),
                text::views(kept@) == names.take(i as int).filter(p),
            decreases self.labels.len() - i,
        {
            let ghost had = text::views(kept@);
            let l = &self.labels[i];
            proof {
                assert(names.take(i + 1) =~= names.take(i as int).push(l@));
                names.take(i as int).lemma_filter_push(l@, p);
            }
            if !text::same(l, label) {
                kept.push(l.clone());
                assert(text::views(kept@) =~= had.push(l@));
            }
            i = i + 1;
        }
        assert(names.take(i as int) =~= names);
        let hide = text::copies(&kept);
        let ghost all = shown_last(names, label@);
        kept.push(label.to_owned());
        assert(text::views(kept@) =~= all);
        let mut close: Vec<String> = Vec::new();
        let ghost n = if is_open {
            0
        } else {
            surplus(all)
        };
        assert(all.skip(0) =~= all);
        assert(text::views(close@) =~= all.take(0));
        while !is_open && kept.len() > MAX_LIVE
            invariant
                close@.len() + kept@.len() == all.len(),
                text::views(kept@) == all.skip(close@.len() as int),
                text::views(close@) == all.take(close@.len() as int),
                close@.len() > 0 ==> kept@.len() >= MAX_LIVE && !is_open,
            decreases kept.len(),
        {
            let ghost had = text::views(close@);
            let ghost left = text::views(kept@);
            let oldest = kept.remove(0);
            proof {
                assert(oldest@ == left[0]);
                assert(text::views(kept@) =~= left.remove(0));
                assert(left.remove(0) =~= all.skip(had.len() as int + 1));
            }
            close.push(oldest);
            assert(text::views(close@) =~= had.push(oldest@));
            assert(had.push(oldest@) =~= all.take(had.len() as int + 1));
        }
        self.labels = kept;
        ShowPlan { hide, close }
    }

    /// The views to hide where no page is to be seen.
    pub fn hide_all(&self) -> (r: Vec<String>)
        ensures
            text::views(r@) == self.names(),
    {
        text::copies(&self.labels)
    }
}

/// A page that is shown is the last to be closed, and once it has a view there are
/// never more than are kept.
pub proof fn the_page_shown_is_kept(labels: Seq<Seq<char>>, label: Seq<char>)
    ensures
        shown_last(labels, label).skip(surplus(shown_last(labels, label))).len() <= MAX_LIVE,
        shown_last(labels, label).skip(surplus(shown_last(labels, label))).last() == label,
        labels.contains(label) ==> shown_last(labels, label).len() <= labels.len(),
{
    let p = not_named(label);
    labels.lemma_filter_len(p);
    if labels.contains(label) {
        list::lemma_filter_places(labels, p);
        let i = choose|i: int| 0 <= i < labels.len() && labels[i] == label;
        lemma_filter_loses(labels, p, i);
    }
}

proof fn lemma_filter_loses(s: Seq<Seq<char>>, p: spec_fn(Seq<char>) -> bool, i: int)
    requires
        0 <= i < s.len(),
        !p(s[i]),
    ensures
        s.filter(p).len() < s.len(),
    decreases s.len(),
{
    reveal(Seq::filter);
    let t = s.drop_last();
    t.lemma_filter_len(p);
    if i < t.len() {
        lemma_filter_loses(t, p, i);
    }
}

/// Six pages live at most: the one that is shown, and of the others those that were
/// shown last, in their order. A page that lives keeps its place among the others.
pub proof fn the_pages_shown_last_live(labels: Seq<Seq<char>>, label: Seq<char>, other: Seq<char>)
    requires
        other != label,
    ensures
        ({
            let all = shown_last(labels, label);
            let live = all.skip(surplus(all));
            &&& live.len() == (if all.len() > 6 {
                6
            } else {
                all.len() as int
            })
            &&& live.is_suffix_of(all)
            &&& all.last() == label
            &&& all.contains(other) <==> labels.contains(other)
            &&& !all.drop_last().contains(label)
            &&& labels.len() <= 5 && labels.contains(other) ==> live.contains(other)
        }),
{
    let not = not_named(label);
    let kept = labels.filter(not);
    let all = shown_last(labels, label);
    let live = all.skip(surplus(all));
    list::lemma_filter_places(labels, not);
    assert(all.drop_last() =~= kept);
    if kept.contains(label) {
        let i = choose|i: int| 0 <= i < kept.len() && kept[i] == label;
        let a = list::place_of(labels, not, i);
        assert(not(kept[i]));
    }
    if labels.contains(other) {
        let i = choose|i: int| 0 <= i < labels.len() && labels[i] == other;
        labels.lemma_filter_contains(not, i);
        let k = choose|k: int| 0 <= k < kept.len() && kept[k] == other;
        assert(all[k] == other);
        if labels.len() <= 5 {
            assert(live =~= all);
        }
    }
    if all.contains(other) {
        let k = choose|k: int| 0 <= k < all.len() && all[k] == other;
        assert(kept[k] == other);
        let a = list::place_of(labels, not, k);
        assert(labels[a] == other);
    }
    assert(live =~= all.skip(all.len() - live.len()));
}

/// Each page has its own label: two that hash differently are never taken for the same.
pub proof fn a_label_tells_its_page(a: u64, b: u64)
    ensures
        label_of(a) == label_of(b) ==> a == b,
        label_of(a).len() == "pr-view-"@.len() + 16,
        "pr-view-"@.is_prefix_of(label_of(a)),
{
    hash::digits_tell_the_number(a as nat, 16);
    hash::digits_tell_the_number(b as nat, 16);
    let p = LABEL_PREFIX@;
    let x = hash::hex(a as nat, 16);
    let y = hash::hex(b as nat, 16);
    assert(label_of(a).skip(p.len() as int) =~= x);
    assert(label_of(b).skip(p.len() as int) =~= y);
    assert(label_of(a).take(p.len() as int) =~= p);
    if x == y {
        hash::two_numbers_differ_in_a_digit(a as nat, b as nat, 16);
    }
}

} // verus!
