//! The store operations behind each command: validated add with id
//! assignment, removal by id, lookup, partial-match search, and field-wise
//! edit.

use crate::laws::lemma_add_ids;
use crate::models::{
    deref_links, has_id, has_url, link_matches, max_id, next_id, resolved_at, search_links,
    some_id_hit, some_title_hit, store_wf, title_taken, Link, LinkDB, LinkError,
};
use crate::text::{spec_tags, spec_trim, split_tags, trim_str};
use vstd::prelude::*;

verus! {

/// Whether `s` is a well-formed URL, as `url::Url::parse` decides it.
pub uninterp spec fn url_ok(s: Seq<char>) -> bool;

/// Relies on `url::Url::parse`: whether a string parses as a URL depends on
/// the string alone.
#[verifier::external_body]
fn parse_url_ok(s: &str) -> (r: bool)
    ensures
        r == url_ok(s@),
{
    url::Url::parse(s).is_ok()
}

/// Relies on `chrono::Utc::now`: the current time as seconds since the Unix
/// epoch; nothing is assumed of the value.
#[verifier::external_body]
fn now_timestamp() -> i64 {
    chrono::Utc::now().timestamp()
}

fn clone_string_vec(v: &Vec<String>) -> (r: Vec<String>)
    ensures
        r@ == v@,
{
    let mut r: Vec<String> = Vec::new();
    let mut i: usize = 0;
    while i < v.len()
        invariant
            i <= v@.len(),
            r@ =~= v@.take(i as int),
        decreases v@.len() - i,
    {
        r.push(v[i].clone());
        i += 1;
    }
    proof {
        assert(v@.take(v@.len() as int) =~= v@);
    }
    r
}

/// The largest id in the store, 0 when it is empty.
fn max_id_of(links: &Vec<Link>) -> (m: usize)
    ensures
        m == max_id(links@),
{
    let mut m: usize = 0;
    let mut i: usize = 0;
    proof {
        assert(links@.take(0) =~= Seq::<Link>::empty());
    }
    while i < links.len()
        invariant
            i <= links@.len(),
            m == max_id(links@.take(i as int)),
        decreases links@.len() - i,
    {
        proof {
            assert(links@.take(i + 1).drop_last() =~= links@.take(i as int));
            assert(links@.take(i + 1).last() == links@[i as int]);
        }
        if links[i].id > m {
            m = links[i].id;
        }
        i += 1;
    }
    proof {
        assert(links@.take(links@.len() as int) =~= links@);
    }
    m
}

/// Add a link at a given creation time: reject a malformed URL, a URL
/// already present, or a title already present case-insensitively, in that
/// order and with the store unchanged; otherwise append a link carrying the
/// next id and report that id.
pub fn add_with_time(
    db: &mut LinkDB,
    title: &str,
    description: Option<&str>,
    url: &str,
    tags: &Vec<String>,
    now: i64,
) -> (r: Result<usize, LinkError>)
    requires
        max_id(old(db).links@) < usize::MAX,
    ensures
        (r == Err::<usize, LinkError>(LinkError::InvalidURL)) <==> !url_ok(url@),
        (r == Err::<usize, LinkError>(LinkError::DuplicateURL)) <==> (url_ok(url@) && has_url(
            old(db).links@,
            url@,
        )),
        (r == Err::<usize, LinkError>(LinkError::DuplicateTitle)) <==> (url_ok(url@) && !has_url(
            old(db).links@,
            url@,
        ) && title_taken(old(db).links@, title@)),
        (r is Ok) <==> (url_ok(url@) && !has_url(old(db).links@, url@) && !title_taken(
            old(db).links@,
            title@,
        )),
        r is Err ==> final(db).links@ == old(db).links@,
        store_wf(old(db).links@) ==> store_wf(final(db).links@),
        r is Ok ==> final(db).links@.len() == old(db).links@.len() + 1 && final(db).links@.drop_last()
            == old(db).links@ && r == Ok::<usize, LinkError>(final(db).links@.last().id) && (
        final(db).links@.last().id == next_id(old(db).links@)) && final(db).links@.last().title@
            == title@ && final(db).links@.last().url@ == url@ && final(db).links@.last().tags@
            == tags@ && final(db).links@.last().added == now && (match description {
            Some(d) => final(db).links@.last().description matches Some(dd) && dd@ == d@,
            None => final(db).links@.last().description is None,
        }),
{
    if !parse_url_ok(url) {
        return Err(LinkError::InvalidURL);
    }
    let m: usize = max_id_of(&db.links);
    let new_id: usize = m + 1;
    let link = Link {
        id: new_id,
        title: title.to_owned(),
        description: match description {
            Some(d) => Some(d.to_owned()),
            None => None,
        },
        url: url.to_owned(),
        tags: clone_string_vec(tags),
        added: now,
    };
    let ghost prior: Seq<Link> = db.links@;
    proof {
        if store_wf(prior) {
            lemma_add_ids(prior, link);
        }
    }
    match db.add_link(link) {
        Ok(()) => {
            proof {
                assert(db.links@.drop_last() =~= prior);
            }
            Ok(new_id)
        },
        Err(e) => Err(e),
    }
}

/// Add a link stamped with the current time; otherwise exactly
/// `add_with_time`.
pub fn add(
    db: &mut LinkDB,
    title: &str,
    description: Option<&str>,
    url: &str,
    tags: &Vec<String>,
) -> (r: Result<usize, LinkError>)
    requires
        max_id(old(db).links@) < usize::MAX,
    ensures
        (r == Err::<usize, LinkError>(LinkError::InvalidURL)) <==> !url_ok(url@),
        (r == Err::<usize, LinkError>(LinkError::DuplicateURL)) <==> (url_ok(url@) && has_url(
            old(db).links@,
            url@,
        )),
        (r == Err::<usize, LinkError>(LinkError::DuplicateTitle)) <==> (url_ok(url@) && !has_url(
            old(db).links@,
            url@,
        ) && title_taken(old(db).links@, title@)),
        (r is Ok) <==> (url_ok(url@) && !has_url(old(db).links@, url@) && !title_taken(
            old(db).links@,
            title@,
        )),
        r is Err ==> final(db).links@ == old(db).links@,
        store_wf(old(db).links@) ==> store_wf(final(db).links@),
        r is Ok ==> final(db).links@.len() == old(db).links@.len() + 1 && final(db).links@.drop_last()
            == old(db).links@ && r == Ok::<usize, LinkError>(final(db).links@.last().id) && (
        final(db).links@.last().id == next_id(old(db).links@)) && final(db).links@.last().title@
            == title@ && final(db).links@.last().url@ == url@ && final(db).links@.last().tags@
            == tags@ && (match description {
            Some(d) => final(db).links@.last().description matches Some(dd) && dd@ == d@,
            None => final(db).links@.last().description is None,
        }),
{
    let now: i64 = now_timestamp();
    add_with_time(db, title, description, url, tags, now)
}

/// Delete the link with this id and report the id back, or report `NotFound`
/// and leave the store unchanged.
pub fn remove(db: &mut LinkDB, id: &usize) -> (r: Result<usize, LinkError>)
    ensures
        has_id(old(db).links@, *id) ==> r == Ok::<usize, LinkError>(*id) && final(db).links@
            == old(db).links@.filter(|l: Link| l.id != *id),
        !has_id(old(db).links@, *id) ==> r == Err::<usize, LinkError>(LinkError::NotFound)
            && final(db).links@ == old(db).links@,
{
    let n: usize = db.links.len();
    let mut i: usize = 0;
    let mut found: bool = false;
    while i < n && !found
        invariant
            i <= n,
            n == db.links@.len(),
            found ==> has_id(db.links@, *id),
            !found ==> forall|k: int| 0 <= k < i ==> (#[trigger] db.links@[k]).id != *id,
        decreases n - i,
    {
        if db.links[i].id == *id {
            found = true;
        }
        i += 1;
    }
    if found {
        db.remove_link(*id);
        Ok(*id)
    } else {
        Err(LinkError::NotFound)
    }
}

/// All links in the store, in collection order.
pub fn list(db: &LinkDB) -> (r: &Vec<Link>)
    ensures
        r@ == db.links@,
{
    &db.links
}

/// All links of `links` the query matches, in collection order; an empty
/// query matches every link.
pub fn find_partial_matches<'a>(links: &'a Vec<Link>, query: &str) -> (r: Vec<&'a Link>)
    ensures
        deref_links(r@) == links@.filter(|l: Link| link_matches(l, query@)),
        query@.len() == 0 ==> deref_links(r@) == links@,
{
    search_links(links, query)
}

/// A replacement gathered for each field of a link; `None` leaves that
/// field alone.
pub struct LinkUpdate {
    pub title: Option<String>,
    pub description: Option<String>,
    pub url: Option<String>,
    /// Raw comma-separated tag input.
    pub tags: Option<String>,
}

/// A text field after an edit: replaced by the trimmed input when that is
/// non-empty, unchanged otherwise.
pub open spec fn field_after(cur: Seq<char>, upd: Option<String>) -> Seq<char> {
    match upd {
        Some(s) => if spec_trim(s@).len() > 0 {
            spec_trim(s@)
        } else {
            cur
        },
        None => cur,
    }
}

/// How one link looks after the update is applied to it: id and creation
/// time kept; title and URL replaced by non-empty trimmed input; an empty
/// description input clears the description; tag input is split on commas,
/// trimmed and cleaned of empty tokens, an all-whitespace input leaving no
/// tags.
pub open spec fn edited_link(ol: Link, nl: Link, u: LinkUpdate) -> bool {
    nl.id == ol.id && nl.added == ol.added && nl.title@ == field_after(ol.title@, u.title)
        && nl.url@ == field_after(ol.url@, u.url) && (match u.description {
        Some(s) => if spec_trim(s@).len() > 0 {
            nl.description matches Some(d) && d@ == spec_trim(s@)
        } else {
            nl.description is None
        },
        None => nl.description == ol.description,
    }) && (match u.tags {
        Some(s) => if spec_trim(s@).len() == 0 {
            nl.tags@.len() == 0
        } else {
            nl.tags.deep_view() == spec_tags(s@)
        },
        None => nl.tags == ol.tags,
    })
}

/// Resolve `target` by id or title and rewrite the resolved link field by
/// field; absent a match, report `NotFound` and leave the store unchanged.
/// Uniqueness of the new title or URL is not re-checked.
pub fn edit(db: &mut LinkDB, target: &str, update: LinkUpdate) -> (r: Result<usize, LinkError>)
    ensures
        match r {
            Ok(id) => exists|i: int|
                #[trigger] resolved_at(old(db).links@, target@, i) && final(db).links@ == old(
                    db,
                ).links@.update(i, final(db).links@[i]) && edited_link(
                    old(db).links@[i],
                    final(db).links@[i],
                    update,
                ) && id == old(db).links@[i].id,
            Err(e) => e == LinkError::NotFound && final(db).links@ == old(db).links@
                && !some_id_hit(old(db).links@, target@) && !some_title_hit(
                old(db).links@,
                target@,
            ),
        },
{
    let found = db.resolve(target);
    match found {
        None => Err(LinkError::NotFound),
        Some(i) => {
            let ghost orig: Seq<Link> = db.links@;
            let mut l: Link = db.links.remove(i);
            let LinkUpdate { title, description, url, tags } = update;
            match title {
                Some(t) => {
                    let tt = trim_str(t.as_str());
                    if tt.unicode_len() > 0 {
                        l.title = tt;
                    }
                },
                None => {},
            }
            match description {
                Some(d) => {
                    let dd = trim_str(d.as_str());
                    if dd.unicode_len() > 0 {
                        l.description = Some(dd);
                    } else {
                        l.description = None;
                    }
                },
                None => {},
            }
            match url {
                Some(u) => {
                    let uu = trim_str(u.as_str());
                    if uu.unicode_len() > 0 {
                        l.url = uu;
                    }
                },
                None => {},
            }
            match tags {
                Some(s) => {
                    let st = trim_str(s.as_str());
                    if st.unicode_len() == 0 {
                        l.tags = Vec::new();
                        proof {
                            assert(l.tags@ =~= Seq::<String>::empty());
                        }
                    } else {
                        l.tags = split_tags(s.as_str());
                    }
                },
                None => {},
            }
            let lid: usize = l.id;
            db.links.insert(i, l);
            proof {
                assert(db.links@ =~= orig.update(i as int, db.links@[i as int]));
                assert(resolved_at(orig, target@, i as int));
            }
            Ok(lid)
        },
    }
}

} // verus!
