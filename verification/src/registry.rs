//! All the tags of a scan in two flat tables: the targets and the links.

use vstd::prelude::*;

use crate::tags::{
    all_links, all_targets, index_sites, CombinedTagList, IndexView, TagEntry, TagIndex,
    TagLocation, TagSite,
};

verus! {

/// Tag locations in the order in which they were gathered.
pub struct TagTable {
    pub tags: Vec<TagLocation>,
}

/// The sites of some locations.
pub open spec fn sites(v: Seq<TagLocation>) -> Seq<TagSite> {
    v.map_values(|l: TagLocation| l@)
}

/// All the tags of a scan: the targets in one table, the links in another.
pub struct TagRegistry {
    pub target_tags: TagTable,
    pub link_tags: TagTable,
}

impl TagRegistry {
    /// A registry with no tag.
    pub fn new() -> (res: TagRegistry)
        ensures
            res.target_tags.tags@.len() == 0,
            res.link_tags.tags@.len() == 0,
    {
        TagRegistry { target_tags: TagTable { tags: Vec::new() }, link_tags: TagTable { tags: Vec::new() } }
    }
}

proof fn lemma_index_sites_step(e: IndexView, i: int)
    requires
        0 <= i < e.len(),
    ensures
        index_sites(e.take(i + 1)) == index_sites(e.take(i)) + e[i].1,
{
    assert(e.take(i + 1).drop_last() =~= e.take(i));
}

/// Appends copies of all the locations of `index`, entry after entry.
fn append_index(out: &mut Vec<TagLocation>, index: &TagIndex)
    ensures
        sites(final(out)@) == sites(old(out)@) + index_sites(index@),
{
    let entries = index.entries();
    let ghost e = index@;
    let n: usize = entries.len();
    for i in 0..n
        invariant
            n == entries@.len(),
            entries@.map_values(|x: TagEntry| x@) == e,
            sites(out@) == sites(old(out)@) + index_sites(e.take(i as int)),
    {
        let locs = &entries[i].locations;
        assert(e[i as int] == entries@[i as int]@);
        let ghost before = sites(out@);
        let m: usize = locs.len();
        for k in 0..m
            invariant
                m == locs@.len(),
                before == sites(old(out)@) + index_sites(e.take(i as int)),
                sites(out@) == before + sites(locs@.take(k as int)),
        {
            let ghost prev = out@;
            out.push(locs[k].duplicate());
            assert(sites(out@) =~= sites(prev).push(locs@[k as int]@));
            assert(locs@.take(k + 1) =~= locs@.take(k as int).push(locs@[k as int]));
            assert(sites(locs@.take(k + 1)) =~= sites(locs@.take(k as int)).push(locs@[k as int]@));
        }
        assert(locs@.take(m as int) =~= locs@);
        proof {
            lemma_index_sites_step(e, i as int);
        }
        assert(sites(out@) =~= sites(old(out)@) + index_sites(e.take(i + 1)));
    }
    assert(e.take(n as int) =~= e);
}

proof fn lemma_all_step(lists: Seq<crate::tags::TagList>, i: int)
    requires
        0 <= i < lists.len(),
    ensures
        all_targets(lists.take(i + 1)) == all_targets(lists.take(i)) + index_sites(lists[i].targets@),
        all_links(lists.take(i + 1)) == all_links(lists.take(i)) + index_sites(lists[i].links@),
{
    assert(lists.take(i + 1).drop_last() =~= lists.take(i));
}

/// Gathers the tags of all the lists into one registry: the targets of every list, list
/// after list, in one table, and the links likewise in the other.
pub fn aggregate_tags(combined: &CombinedTagList) -> (res: TagRegistry)
    ensures
        sites(res.target_tags.tags@) == all_targets(combined.tag_lists@),
        sites(res.link_tags.tags@) == all_links(combined.tag_lists@),
{
    let mut targets: Vec<TagLocation> = Vec::new();
    let mut links: Vec<TagLocation> = Vec::new();
    let lists = &combined.tag_lists;
    let n: usize = lists.len();
    assert(sites(targets@) =~= Seq::<TagSite>::empty());
    assert(sites(links@) =~= Seq::<TagSite>::empty());
    for i in 0..n
        invariant
            n == lists@.len(),
            sites(targets@) == all_targets(lists@.take(i as int)),
            sites(links@) == all_links(lists@.take(i as int)),
    {
        append_index(&mut targets, &lists[i].targets);
        append_index(&mut links, &lists[i].links);
        proof {
            lemma_all_step(lists@, i as int);
        }
    }
    assert(lists@.take(n as int) =~= lists@);
    TagRegistry { target_tags: TagTable { tags: targets }, link_tags: TagTable { tags: links } }
}

} // verus!
