//! The record store: bookmark records, the collection that owns them, and
//! its uniqueness, matching and lookup rules.

use crate::text::{
    contains_str, eq_ci, lower_of, lowercase, parse_usize_str, seq_contains, spec_parse_usize,
};
use vstd::prelude::*;
use vstd::seq_lib::*;

verus! {

/// A single bookmark record.
#[derive(Debug)]
pub struct Link {
    /// Positive integer, unique within the store.
    pub id: usize,
    /// Display string, unique case-insensitively across the store.
    pub title: String,
    /// Optional free text.
    pub description: Option<String>,
    /// Must be unique (exact string match) across the store.
    pub url: String,
    /// Ordered tag list; order matters for display only.
    pub tags: Vec<String>,
    /// Creation time, seconds since the Unix epoch, UTC; set once.
    pub added: i64,
}

/// The links a sequence of references points at.
pub open spec fn deref_links(s: Seq<&Link>) -> Seq<Link> {
    s.map_values(|l: &Link| *l)
}

/// Why a store operation was refused.
#[derive(Debug, Clone, Copy, PartialEq, Eq, Structural)]
pub enum LinkError {
    /// The URL string does not parse as a URL.
    InvalidURL,
    /// Another link already has the identical URL string.
    DuplicateURL,
    /// Another link already has the same title, compared case-insensitively.
    DuplicateTitle,
    /// No link has the given id or title.
    NotFound,
}

/// The in-memory collection of all links, in insertion order.
#[derive(Debug)]
pub struct LinkDB {
    pub links: Vec<Link>,
}

/// Some link in `s` has exactly this URL string.
pub open spec fn has_url(s: Seq<Link>, url: Seq<char>) -> bool {
    exists|i: int| 0 <= i < s.len() && (#[trigger] s[i]).url@ == url
}

/// Some link in `s` has this title, compared case-insensitively.
pub open spec fn title_taken(s: Seq<Link>, title: Seq<char>) -> bool {
    exists|i: int| 0 <= i < s.len() && lower_of((#[trigger] s[i]).title@) == lower_of(title)
}

/// Some link in `s` has this id.
pub open spec fn has_id(s: Seq<Link>, id: usize) -> bool {
    exists|i: int| 0 <= i < s.len() && (#[trigger] s[i]).id == id
}

/// The largest id in `s`, or 0 if `s` is empty.
pub open spec fn max_id(s: Seq<Link>) -> int
    decreases s.len(),
{
    if s.len() == 0 {
        0
    } else {
        let m = max_id(s.drop_last());
        if s.last().id >= m {
            s.last().id as int
        } else {
            m
        }
    }
}

/// The id the next successful `add` assigns: one more than the largest id
/// present, 1 on an empty store.
pub open spec fn next_id(s: Seq<Link>) -> int {
    max_id(s) + 1
}

/// The store's invariant: no two links share an id, a URL, or a title
/// compared case-insensitively.
pub open spec fn store_wf(s: Seq<Link>) -> bool {
    (forall|i: int, j: int|
        0 <= i < j < s.len() ==> (#[trigger] s[i]).id != (#[trigger] s[j]).id) && (forall|
        i: int,
        j: int,
    |
        0 <= i < j < s.len() ==> (#[trigger] s[i]).url@ != (#[trigger] s[j]).url@) && (forall|
        i: int,
        j: int,
    |
        0 <= i < j < s.len() ==> lower_of((#[trigger] s[i]).title@) != lower_of(
            (#[trigger] s[j]).title@,
        ))
}

/// The query, lowercased, occurs in some tag of `l`, lowercased.
pub open spec fn tag_matches(l: Link, q: Seq<char>) -> bool {
    exists|i: int|
        0 <= i < l.tags@.len() && seq_contains(lower_of((#[trigger] l.tags@[i])@), lower_of(q))
}

/// The query, lowercased, occurs in the lowercased title, URL, or some
/// lowercased tag of `l`.
pub open spec fn link_matches(l: Link, q: Seq<char>) -> bool {
    seq_contains(lower_of(l.title@), lower_of(q)) || seq_contains(lower_of(l.url@), lower_of(q))
        || tag_matches(l, q)
}

/// `target` reads as a number that is `l`'s id.
pub open spec fn is_id_hit(l: Link, target: Seq<char>) -> bool {
    spec_parse_usize(target) == Some(l.id)
}

/// `target` equals `l`'s title case-insensitively.
pub open spec fn is_title_hit(l: Link, target: Seq<char>) -> bool {
    lower_of(l.title@) == lower_of(target)
}

/// Some link in `s` is an id match for `target`.
pub open spec fn some_id_hit(s: Seq<Link>, target: Seq<char>) -> bool {
    exists|i: int| 0 <= i < s.len() && is_id_hit(#[trigger] s[i], target)
}

/// Some link in `s` is a case-insensitive title match for `target`.
pub open spec fn some_title_hit(s: Seq<Link>, target: Seq<char>) -> bool {
    exists|i: int| 0 <= i < s.len() && is_title_hit(#[trigger] s[i], target)
}

/// `i` is the index the two-step lookup picks for `target`: the first id
/// match if there is one, the first case-insensitive title match otherwise.
pub open spec fn resolved_at(s: Seq<Link>, target: Seq<char>, i: int) -> bool {
    0 <= i < s.len() && (if some_id_hit(s, target) {
        is_id_hit(s[i], target) && (forall|j: int|
            0 <= j < i ==> !is_id_hit(#[trigger] s[j], target))
    } else {
        is_title_hit(s[i], target) && (forall|j: int|
            0 <= j < i ==> !is_title_hit(#[trigger] s[j], target))
    })
}

/// Whether `l` matches the query, exactly as `link_matches` says.
fn matches_link(l: &Link, ql: &str, q: &str) -> (b: bool)
    requires
        ql@ == lower_of(q@),
    ensures
        b == link_matches(*l, q@),
{
    let lt = lowercase(self_str(&l.title));
    if contains_str(lt.as_str(), ql) {
        return true;
    }
    let lu = lowercase(self_str(&l.url));
    if contains_str(lu.as_str(), ql) {
        return true;
    }
    let mut i: usize = 0;
    while i < l.tags.len()
        invariant
            i <= l.tags@.len(),
            ql@ == lower_of(q@),
            !seq_contains(lower_of(l.title@), lower_of(q@)),
            !seq_contains(lower_of(l.url@), lower_of(q@)),
            forall|k: int|
                0 <= k < i ==> !seq_contains(lower_of((#[trigger] l.tags@[k])@), lower_of(q@)),
        decreases l.tags@.len() - i,
    {
        let ltag = lowercase(self_str(&l.tags[i]));
        if contains_str(ltag.as_str(), ql) {
            return true;
        }
        i += 1;
    }
    false
}

fn self_str(s: &String) -> (r: &str)
    ensures
        r@ == s@,
{
    s.as_str()
}

/// All links of `links` that the query matches, in collection order; an
/// empty query matches every link.
pub(crate) fn search_links<'a>(links: &'a Vec<Link>, query: &str) -> (r: Vec<&'a Link>)
    ensures
        deref_links(r@) == links@.filter(|l: Link| link_matches(l, query@)),
        query@.len() == 0 ==> deref_links(r@) == links@,
{
    let ghost pred = |l: Link| link_matches(l, query@);
    let ql = lowercase(query);
    let mut r: Vec<&'a Link> = Vec::new();
    let mut i: usize = 0;
    proof {
        assert(deref_links(r@) =~= links@.take(0).filter(pred));
    }
    while i < links.len()
        invariant
            i <= links@.len(),
            ql@ == lower_of(query@),
            query@.len() == 0 ==> ql@.len() == 0,
            pred == (|l: Link| link_matches(l, query@)),
            deref_links(r@) == links@.take(i as int).filter(pred),
            query@.len() == 0 ==> deref_links(r@) == links@.take(i as int),
        decreases links@.len() - i,
    {
        proof {
            assert(links@.take(i + 1).drop_last() =~= links@.take(i as int));
            assert(links@.take(i + 1).last() == links@[i as int]);
            links@.take(i as int).lemma_filter_push(links@[i as int], pred);
            assert(links@.take(i as int).push(links@[i as int]) =~= links@.take(i + 1));
        }
        let cur: &'a Link = &links[i];
        let m = matches_link(cur, ql.as_str(), query);
        proof {
            if query@.len() == 0 {
                assert(lower_of(query@).len() == 0);
                let hay = lower_of(links@[i as int].title@);
                assert(hay.subrange(0, 0 + lower_of(query@).len() as int) =~= lower_of(query@));
                assert(seq_contains(hay, lower_of(query@)));
                assert(m);
            }
        }
        let ghost pre = r@;
        if m {
            r.push(cur);
            proof {
                assert(deref_links(r@) =~= deref_links(pre).push(*cur));
                if query@.len() == 0 {
                    assert(deref_links(r@) =~= links@.take(i + 1));
                }
            }
        }
        i += 1;
    }
    proof {
        assert(links@.take(links@.len() as int) =~= links@);
    }
    r
}

impl LinkDB {
    /// An empty store; the persistence layer fills one from disk.
    pub fn new() -> (db: LinkDB)
        ensures
            db.links@ == Seq::<Link>::empty(),
            store_wf(db.links@),
    {
        let db = LinkDB { links: Vec::new() };
        proof {
            assert(db.links@ =~= Seq::<Link>::empty());
        }
        db
    }

    /// Append `link` unless its URL, or its title compared
    /// case-insensitively, is already present; the store is unchanged on
    /// rejection, and the invariant is preserved when the id is fresh.
    pub fn add_link(&mut self, link: Link) -> (r: Result<(), LinkError>)
        ensures
            match r {
                Ok(()) => !has_url(old(self).links@, link.url@) && !title_taken(
                    old(self).links@,
                    link.title@,
                ) && final(self).links@ == old(self).links@.push(link),
                Err(e) => final(self).links@ == old(self).links@ && (e == LinkError::DuplicateURL
                    || e == LinkError::DuplicateTitle) && (e == LinkError::DuplicateURL <==> has_url(
                    old(self).links@,
                    link.url@,
                )) && (e == LinkError::DuplicateTitle <==> (!has_url(old(self).links@, link.url@)
                    && title_taken(old(self).links@, link.title@))),
            },
            (store_wf(old(self).links@) && !has_id(old(self).links@, link.id) && r is Ok)
                ==> store_wf(final(self).links@),
    {
        let n: usize = self.links.len();
        let mut i: usize = 0;
        while i < n
            invariant
                n == self.links@.len(),
                i <= n,
                forall|k: int| 0 <= k < i ==> (#[trigger] self.links@[k]).url@ != link.url@,
            decreases n - i,
        {
            if self.links[i].url == link.url {
                return Err(LinkError::DuplicateURL);
            }
            i += 1;
        }
        let mut i: usize = 0;
        while i < n
            invariant
                n == self.links@.len(),
                i <= n,
                !has_url(self.links@, link.url@),
                forall|k: int| 0 <= k < i ==> lower_of((#[trigger] self.links@[k]).title@)
                    != lower_of(link.title@),
            decreases n - i,
        {
            if eq_ci(self_str(&self.links[i].title), self_str(&link.title)) {
                return Err(LinkError::DuplicateTitle);
            }
            i += 1;
        }
        proof {
            assert(!has_url(self.links@, link.url@));
            assert(!title_taken(self.links@, link.title@));
        }
        let ghost prior: Seq<Link> = self.links@;
        self.links.push(link);
        proof {
            if store_wf(prior) && !has_id(prior, link.id) {
                let s = self.links@;
                assert forall|i: int, j: int| 0 <= i < j < s.len() implies (#[trigger] s[i]).id
                    != (#[trigger] s[j]).id by {
                    if j < prior.len() as int {
                    } else {
                        assert(s[j] == link);
                        assert(!((#[trigger] prior[i]).id == link.id));
                    }
                }
                assert forall|i: int, j: int| 0 <= i < j < s.len() implies (#[trigger] s[i]).url@
                    != (#[trigger] s[j]).url@ by {
                    if j < prior.len() as int {
                    } else {
                        assert(s[j] == link);
                        assert(!((#[trigger] prior[i]).url@ == link.url@));
                    }
                }
                assert forall|i: int, j: int| 0 <= i < j < s.len() implies lower_of(
                    (#[trigger] s[i]).title@,
                ) != lower_of((#[trigger] s[j]).title@) by {
                    if j < prior.len() as int {
                    } else {
                        assert(s[j] == link);
                        assert(!(lower_of((#[trigger] prior[i]).title@) == lower_of(link.title@)));
                    }
                }
            }
        }
        Ok(())
    }

    /// Delete every link whose id is `id`; under the store invariant that is
    /// at most one, and all other links are untouched.
    pub fn remove_link(&mut self, id: usize)
        ensures
            final(self).links@ == old(self).links@.filter(|l: Link| l.id != id),
    {
        let ghost orig: Seq<Link> = self.links@;
        let ghost pred = |l: Link| l.id != id;
        let mut i: usize = 0;
        let ghost mut j: int = 0;
        proof {
            assert(self.links@.take(0) =~= orig.take(0).filter(pred));
            assert(self.links@.skip(0) =~= orig.skip(0));
        }
        while i < self.links.len()
            invariant
                0 <= i <= self.links@.len(),
                0 <= j <= orig.len(),
                pred == (|l: Link| l.id != id),
                self.links@.take(i as int) == orig.take(j).filter(pred),
                self.links@.skip(i as int) == orig.skip(j),
            decreases self.links@.len() - i,
        {
            proof {
                assert(self.links@.skip(i as int).len() == self.links@.len() - i);
                assert(orig.skip(j).len() == orig.len() - j);
                assert(j < orig.len());
                assert(self.links@.skip(i as int)[0] == self.links@[i as int]);
                assert(orig.skip(j)[0] == orig[j]);
                assert(orig.take(j + 1).drop_last() =~= orig.take(j));
                assert(orig.take(j + 1).last() == orig[j]);
                orig.take(j).lemma_filter_push(orig[j], pred);
                assert(orig.take(j).push(orig[j]) =~= orig.take(j + 1));
            }
            let ghost pre = self.links@;
            if self.links[i].id == id {
                self.links.remove(i);
                proof {
                    assert(self.links@.take(i as int) =~= pre.take(i as int));
                    assert(self.links@.skip(i as int) =~= pre.skip(i + 1));
                    assert(pre.skip(i as int).skip(1) =~= pre.skip(i + 1));
                    assert(orig.skip(j).skip(1) =~= orig.skip(j + 1));
                }
            } else {
                proof {
                    assert(self.links@.take(i + 1) =~= pre.take(i as int).push(pre[i as int]));
                    assert(pre[i as int] == orig[j]);
                    assert(pre.skip(i as int).skip(1) =~= pre.skip(i + 1));
                    assert(orig.skip(j).skip(1) =~= orig.skip(j + 1));
                }
                i += 1;
            }
            proof {
                j = j + 1;
            }
        }
        proof {
            assert(orig.skip(j).len() == 0);
            assert(j == orig.len());
            assert(orig.take(j) =~= orig);
            assert(self.links@.take(i as int) =~= self.links@);
        }
    }

    /// All links the query matches, in collection order; an empty query
    /// matches every link.
    pub fn search<'a>(&'a self, query: &str) -> (r: Vec<&'a Link>)
        ensures
            deref_links(r@) == self.links@.filter(|l: Link| link_matches(l, query@)),
            query@.len() == 0 ==> deref_links(r@) == self.links@,
    {
        search_links(&self.links, query)
    }

    /// Two-step lookup: the first link whose id the target names, else the
    /// first whose title equals the target case-insensitively, else nothing.
    pub fn resolve(&self, target: &str) -> (r: Option<usize>)
        ensures
            match r {
                Some(i) => resolved_at(self.links@, target@, i as int),
                None => !some_id_hit(self.links@, target@) && !some_title_hit(
                    self.links@,
                    target@,
                ),
            },
    {
        let parsed = parse_usize_str(target);
        if let Some(n) = parsed {
            let mut i: usize = 0;
            while i < self.links.len()
                invariant
                    i <= self.links@.len(),
                    spec_parse_usize(target@) == Some(n),
                    forall|k: int| 0 <= k < i ==> !is_id_hit(#[trigger] self.links@[k], target@),
                decreases self.links@.len() - i,
            {
                if self.links[i].id == n {
                    return Some(i);
                }
                i += 1;
            }
        }
        proof {
            if parsed is None {
                assert forall|k: int|
                    0 <= k < self.links@.len() implies !is_id_hit(
                    #[trigger] self.links@[k],
                    target@,
                ) by {}
            }
        }
        let mut i: usize = 0;
        while i < self.links.len()
            invariant
                i <= self.links@.len(),
                !some_id_hit(self.links@, target@),
                forall|k: int| 0 <= k < i ==> !is_title_hit(#[trigger] self.links@[k], target@),
            decreases self.links@.len() - i,
        {
            if eq_ci(self_str(&self.links[i].title), target) {
                return Some(i);
            }
            i += 1;
        }
        None
    }
}

} // verus!
