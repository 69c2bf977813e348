//! Where tags were found, filed by name.

use vstd::prelude::*;

use crate::tag_syntax::{line_tag, tag_in_line, TagKind};
use crate::tag_syntax::TagKind::{Link, Target};

verus! {

/// One place where a tag was found.
pub struct TagLocation {
    /// The file that holds the tag.
    pub path: String,
    /// The line of the file, counted from 1; 0 where the line number was not known.
    pub line_number: u64,
    /// The tag's name.
    pub line_content: String,
}

/// What a `TagLocation` says, as plain values.
pub struct TagSite {
    pub path: Seq<char>,
    pub line_number: u64,
    pub tag: Seq<char>,
}

impl View for TagLocation {
    type V = TagSite;

    open spec fn view(&self) -> TagSite {
        TagSite { path: self.path@, line_number: self.line_number, tag: self.line_content@ }
    }
}

impl TagLocation {
    /// A copy of this location.
    pub fn duplicate(&self) -> (res: TagLocation)
        ensures
            res@ == self@,
    {
        TagLocation {
            path: self.path.clone(),
            line_number: self.line_number,
            line_content: self.line_content.clone(),
        }
    }
}

/// The places where the tags of one name were found, in the order in which they were found.
pub struct TagEntry {
    pub name: String,
    pub locations: Vec<TagLocation>,
}

/// The entries of an index as plain values: each name with its sites.
pub type IndexView = Seq<(Seq<char>, Seq<TagSite>)>;

impl View for TagEntry {
    type V = (Seq<char>, Seq<TagSite>);

    open spec fn view(&self) -> (Seq<char>, Seq<TagSite>) {
        (self.name@, self.locations@.map_values(|l: TagLocation| l@))
    }
}

/// Where `name` stands among the entries, if it does.
pub open spec fn has_name(entries: IndexView, name: Seq<char>) -> bool {
    exists|i: int| 0 <= i < entries.len() && #[trigger] entries[i].0 == name
}

/// The entries after filing `site` under its tag: appended to the entry of that name, or
/// in a new entry at the end when there is none.
pub open spec fn filed(entries: IndexView, site: TagSite) -> IndexView {
    if has_name(entries, site.tag) {
        let i = choose|i: int| 0 <= i < entries.len() && #[trigger] entries[i].0 == site.tag;
        entries.update(i, (site.tag, entries[i].1.push(site)))
    } else {
        entries.push((site.tag, seq![site]))
    }
}

/// The entries as a map from each name to its sites.
pub open spec fn index_map(entries: IndexView) -> Map<Seq<char>, Seq<TagSite>> {
    Map::new(
        |name: Seq<char>| has_name(entries, name),
        |name: Seq<char>|
            entries[choose|i: int| 0 <= i < entries.len() && #[trigger] entries[i].0 == name].1,
    )
}

/// The sites filed under `name`: none where the name has no entry.
pub open spec fn sites_named(entries: IndexView, name: Seq<char>) -> Seq<TagSite> {
    if has_name(entries, name) {
        index_map(entries)[name]
    } else {
        Seq::empty()
    }
}

/// Well-formed entries: no name twice, no empty entry, and each site filed under its own tag.
pub open spec fn index_wf(entries: IndexView) -> bool {
    &&& forall|i: int, j: int|
        0 <= i < entries.len() && 0 <= j < entries.len() && i != j ==> #[trigger] entries[i].0
            != #[trigger] entries[j].0
    &&& forall|i: int| 0 <= i < entries.len() ==> #[trigger] entries[i].1.len() > 0
    &&& forall|i: int, k: int|
        0 <= i < entries.len() && 0 <= k < entries[i].1.len() ==> #[trigger] entries[i].1[k].tag
            == entries[i].0
}

/// In well-formed entries, the map holds each entry's sites under the entry's name.
pub proof fn lemma_index_map_at(entries: IndexView, i: int)
    requires
        index_wf(entries),
        0 <= i < entries.len(),
    ensures
        has_name(entries, entries[i].0),
        index_map(entries).contains_key(entries[i].0),
        index_map(entries)[entries[i].0] == entries[i].1,
{
    let name = entries[i].0;
    assert(has_name(entries, name));
    let j = choose|j: int| 0 <= j < entries.len() && #[trigger] entries[j].0 == name;
    assert(j == i);
}

/// Filing keeps the entries well-formed.
pub proof fn lemma_filed_wf(entries: IndexView, site: TagSite)
    requires
        index_wf(entries),
    ensures
        index_wf(filed(entries, site)),
{
    let f = filed(entries, site);
    if has_name(entries, site.tag) {
        let i = choose|i: int| 0 <= i < entries.len() && #[trigger] entries[i].0 == site.tag;
        assert forall|j: int, k: int|
            0 <= j < f.len() && 0 <= k < f[j].1.len() implies #[trigger] f[j].1[k].tag == f[j].0 by {
            if j == i && k < entries[i].1.len() {
                assert(f[j].1[k] == entries[i].1[k]);
            }
        }
    } else {
        assert forall|j: int, k: int|
            0 <= j < f.len() && 0 <= k < f[j].1.len() implies #[trigger] f[j].1[k].tag == f[j].0 by {
            if j < entries.len() {
                assert(f[j] == entries[j]);
            }
        }
    }
}

/// Filing a site appends it to the sites of its tag's name, and leaves every other name as
/// it was: in map terms, the entry of the name is created when missing, and then extended.
pub proof fn lemma_filed_map(entries: IndexView, site: TagSite)
    requires
        index_wf(entries),
    ensures
        index_map(filed(entries, site)) == index_map(entries).insert(
            site.tag,
            sites_named(entries, site.tag).push(site),
        ),
{
    let f = filed(entries, site);
    let t = site.tag;
    lemma_filed_wf(entries, site);
    let m = index_map(entries).insert(t, sites_named(entries, t).push(site));
    // Names: those of the entries, and the tag's.
    assert forall|k: Seq<char>| has_name(f, k) <==> (has_name(entries, k) || k == t) by {
        if has_name(f, k) {
            let j = choose|j: int| 0 <= j < f.len() && #[trigger] f[j].0 == k;
            if j < entries.len() && k != t {
                assert(entries[j].0 == k);
            }
        }
        if has_name(entries, k) {
            let j = choose|j: int| 0 <= j < entries.len() && #[trigger] entries[j].0 == k;
            assert(f[j].0 == k);
        }
        if k == t {
            if has_name(entries, t) {
                let j = choose|j: int| 0 <= j < entries.len() && #[trigger] entries[j].0 == t;
                assert(f[j].0 == k);
            } else {
                assert(f[entries.len() as int].0 == k);
            }
        }
    }
    assert forall|k: Seq<char>| #[trigger] index_map(f).contains_key(k) implies index_map(f)[k]
        == m[k] by {
        let j = choose|j: int| 0 <= j < f.len() && #[trigger] f[j].0 == k;
        lemma_index_map_at(f, j);
        if k == t {
            if has_name(entries, t) {
                let i = choose|i: int| 0 <= i < entries.len() && #[trigger] entries[i].0 == t;
                lemma_index_map_at(entries, i);
                lemma_index_map_at(f, i);
            } else {
                lemma_index_map_at(f, entries.len() as int);
            }
        } else {
            assert(j < entries.len());
            assert(f[j] == entries[j]);
            lemma_index_map_at(entries, j);
        }
    }
    assert(index_map(f) =~= m);
}

/// Tag locations filed by tag name. Each name has one entry, the entries stand in the order
/// in which their names were first met, and each entry lists its locations in the order in
/// which they were filed.
pub struct TagIndex {
    entries: Vec<TagEntry>,
}

impl View for TagIndex {
    type V = IndexView;

    closed spec fn view(&self) -> IndexView {
        self.entries@.map_values(|e: TagEntry| e@)
    }
}

impl TagIndex {
    #[verifier::type_invariant]
    closed spec fn inv(self) -> bool {
        index_wf(self@)
    }

    /// An index with no entry.
    pub fn new() -> (res: TagIndex)
        ensures
            res@ == Seq::<(Seq<char>, Seq<TagSite>)>::empty(),
            index_wf(res@),
    {
        let res = TagIndex { entries: Vec::new() };
        assert(res@ =~= Seq::<(Seq<char>, Seq<TagSite>)>::empty());
        res
    }

    /// Files `loc` under its tag name.
    pub fn insert(&mut self, loc: TagLocation)
        ensures
            final(self)@ == filed(old(self)@, loc@),
            index_wf(final(self)@),
            index_map(final(self)@) == index_map(old(self)@).insert(
                loc@.tag,
                sites_named(old(self)@, loc@.tag).push(loc@),
            ),
    {
        proof {
            use_type_invariant(&*self);
            lemma_filed_wf(self@, loc@);
            lemma_filed_map(self@, loc@);
        }
        proof {
            use_type_invariant(&*self);
        }
        let ghost site = loc@;
        let ghost before = self@;
        let mut entries: Vec<TagEntry> = Vec::new();
        std::mem::swap(&mut entries, &mut self.entries);
        assert(entries@.map_values(|e: TagEntry| e@) == before);
        let n: usize = entries.len();
        let mut i: usize = 0;
        while i < n
            invariant
                n == entries@.len(),
                i <= n,
                entries@.map_values(|e: TagEntry| e@) == before,
                site == loc@,
                before == old(self)@,
                index_wf(before),
                forall|j: int| 0 <= j < i ==> #[trigger] before[j].0 != site.tag,
            decreases n - i,
        {
            assert(before[i as int] == entries@[i as int]@);
            let same = entries[i].name.eq(&loc.line_content);
            assert(same == (entries@[i as int].name@ == loc.line_content@));
            if same {
                let ghost old_entries = entries@;
                let mut entry = entries.remove(i);
                entry.locations.push(loc);
                entries.insert(i, entry);
                proof {
                    assert(before[i as int].0 == site.tag);
                    assert(has_name(before, site.tag));
                    let c = choose|c: int| 0 <= c < before.len() && #[trigger] before[c].0 == site.tag;
                    assert(c == i);
                    assert(entry.locations@.map_values(|l: TagLocation| l@) =~= before[i as int].1.push(site));
                    assert(entries@.map_values(|e: TagEntry| e@) =~= filed(before, site));
                    lemma_filed_wf(before, site);
                    lemma_filed_map(before, site);
                }
                self.entries = entries;
                return;
            }
            i = i + 1;
        }
        let name = loc.line_content.clone();
        let mut locations: Vec<TagLocation> = Vec::new();
        locations.push(loc);
        entries.push(TagEntry { name, locations });
        proof {
            assert(!has_name(before, site.tag));
            assert(locations@.map_values(|l: TagLocation| l@) =~= seq![site]);
            assert(entries@.map_values(|e: TagEntry| e@) =~= filed(before, site));
        }
        self.entries = entries;
    }

    /// The number of names in the index.
    pub fn len(&self) -> (res: usize)
        ensures
            res == self@.len(),
    {
        self.entries.len()
    }

    /// Whether the index has no entry.
    pub fn is_empty(&self) -> (res: bool)
        ensures
            res == (self@.len() == 0),
    {
        self.entries.len() == 0
    }

    /// The entries, in order.
    pub fn entries(&self) -> (res: &Vec<TagEntry>)
        ensures
            res@.map_values(|e: TagEntry| e@) == self@,
            index_wf(self@),
    {
        proof {
            use_type_invariant(self);
        }
        &self.entries
    }

    /// The locations filed under `name`, if any are.
    pub fn get(&self, name: &str) -> (res: Option<&Vec<TagLocation>>)
        ensures
            match res {
                Some(v) => {
                    &&& has_name(self@, name@)
                    &&& v@.map_values(|l: TagLocation| l@) == index_map(self@)[name@]
                },
                None => !has_name(self@, name@),
            },
    {
        proof {
            use_type_invariant(self);
        }
        let key = name.to_owned();
        let n: usize = self.entries.len();
        let mut i: usize = 0;
        while i < n
            invariant
                n == self@.len(),
                n == self.entries@.len(),
                i <= n,
                key@ == name@,
                self.entries@.map_values(|e: TagEntry| e@) == self@,
                index_wf(self@),
                forall|j: int| 0 <= j < i ==> #[trigger] self@[j].0 != name@,
            decreases n - i,
        {
            assert(self@[i as int] == self.entries@[i as int]@);
            let same = self.entries[i].name.eq(&key);
            if same {
                proof {
                    lemma_index_map_at(self@, i as int);
                }
                return Some(&self.entries[i].locations);
            }
            i = i + 1;
        }
        None
    }
}


/// All the sites of the entries, entry after entry.
pub open spec fn index_sites(entries: IndexView) -> Seq<TagSite>
    decreases entries.len(),
{
    if entries.len() == 0 {
        Seq::empty()
    } else {
        index_sites(entries.drop_last()) + entries.last().1
    }
}

/// The site of a tag named `name` found on a line of the file at `path`; an unknown line
/// number counts as 0.
pub open spec fn site_at(path: Seq<char>, line_number: Option<u64>, name: Seq<char>) -> TagSite {
    TagSite {
        path,
        line_number: match line_number {
            Some(n) => n,
            None => 0,
        },
        tag: name,
    }
}

proof fn lemma_index_sites_update(e: IndexView, i: int, site: TagSite)
    requires
        0 <= i < e.len(),
    ensures
        index_sites(e.update(i, (e[i].0, e[i].1.push(site)))).to_multiset() == index_sites(
            e,
        ).to_multiset().insert(site),
    decreases e.len(),
{
    broadcast use vstd::seq_lib::group_to_multiset_ensures;

    let u = e.update(i, (e[i].0, e[i].1.push(site)));
    let last: int = (e.len() - 1) as int;
    if i == last {
        assert(u.drop_last() =~= e.drop_last());
        vstd::seq_lib::lemma_multiset_commutative(index_sites(e.drop_last()), e[i].1.push(site));
        vstd::seq_lib::lemma_multiset_commutative(index_sites(e.drop_last()), e[i].1);
    } else {
        let d = e.drop_last();
        assert(u.drop_last() =~= d.update(i, (d[i].0, d[i].1.push(site))));
        lemma_index_sites_update(d, i, site);
        vstd::seq_lib::lemma_multiset_commutative(index_sites(u.drop_last()), e[last].1);
        vstd::seq_lib::lemma_multiset_commutative(index_sites(d), e[last].1);
    }
}

/// Filing a site keeps every site that was filed, and adds this one once: as a multiset,
/// the sites of the index gain exactly `site`.
pub proof fn lemma_filed_sites(entries: IndexView, site: TagSite)
    ensures
        index_sites(filed(entries, site)).to_multiset() == index_sites(entries).to_multiset().insert(
            site,
        ),
        index_sites(filed(entries, site)).len() == index_sites(entries).len() + 1,
{
    broadcast use vstd::seq_lib::group_to_multiset_ensures;

    if has_name(entries, site.tag) {
        let i = choose|i: int| 0 <= i < entries.len() && #[trigger] entries[i].0 == site.tag;
        lemma_index_sites_update(entries, i, site);
    } else {
        let f = entries.push((site.tag, seq![site]));
        assert(f.drop_last() =~= entries);
        vstd::seq_lib::lemma_multiset_commutative(index_sites(entries), seq![site]);
        assert(seq![site] =~= Seq::<TagSite>::empty().push(site));
    }
    let a = index_sites(filed(entries, site));
    let b = index_sites(entries);
    assert(a.to_multiset().len() == a.len());
    assert(b.to_multiset().len() == b.len());
}

proof fn lemma_names_after_insert(
    before: IndexView,
    after: IndexView,
    name: Seq<char>,
    site: TagSite,
)
    requires
        index_map(after) == index_map(before).insert(name, sites_named(before, name).push(site)),
    ensures
        has_name(after, name),
        index_map(after)[name] == sites_named(before, name).push(site),
        forall|other: Seq<char>|
            other != name ==> #[trigger] has_name(after, other) == has_name(before, other) && (
            has_name(before, other) ==> index_map(after)[other] == index_map(before)[other]),
{
    assert(index_map(after).dom().contains(name));
    assert forall|other: Seq<char>| other != name implies #[trigger] has_name(after, other)
        == has_name(before, other) && (has_name(before, other) ==> index_map(after)[other]
        == index_map(before)[other]) by {
        assert(index_map(after).dom().contains(other) == has_name(after, other));
        assert(index_map(before).dom().contains(other) == has_name(before, other));
    }
}

/// Recording a tag named `name` files it under exactly `name`: afterwards `name` has an
/// entry whose sites are the earlier ones followed by the new site, which carries the given
/// path, the line number (0 when unknown) and `name` itself; every other name keeps its
/// entry, or its absence, unchanged.
pub proof fn lemma_record_site(
    entries: IndexView,
    path: Seq<char>,
    line_number: Option<u64>,
    name: Seq<char>,
)
    requires
        index_wf(entries),
    ensures
        ({
            let after = filed(entries, site_at(path, line_number, name));
            let n = match line_number {
                Some(n) => n,
                None => 0u64,
            };
            &&& has_name(after, name)
            &&& index_map(after)[name] == sites_named(entries, name).push(
                TagSite { path: path, line_number: n, tag: name },
            )
            &&& forall|other: Seq<char>|
                other != name ==> #[trigger] has_name(after, other) == has_name(entries, other) && (
                has_name(entries, other) ==> index_map(after)[other] == index_map(entries)[other])
        }),
{
    let site = site_at(path, line_number, name);
    lemma_filed_map(entries, site);
    lemma_names_after_insert(entries, filed(entries, site), site.tag, site);
}

/// The tags found in some files: the targets and the links, each filed by name.
pub struct TagList {
    pub targets: TagIndex,
    pub links: TagIndex,
}

impl TagList {
    /// A list with no tag.
    pub fn new() -> (res: TagList)
        ensures
            res.targets@ == Seq::<(Seq<char>, Seq<TagSite>)>::empty(),
            res.links@ == Seq::<(Seq<char>, Seq<TagSite>)>::empty(),
    {
        TagList { targets: TagIndex::new(), links: TagIndex::new() }
    }

    /// Records the tag that a line holds, if it holds one: a target among the targets, a
    /// link among the links, filed under its name, with the file's path and the line's
    /// number. A line that holds no tag changes nothing.
    pub fn record_line(&mut self, path: &str, line_number: Option<u64>, line: &[u8])
        ensures
            match line_tag(line@) {
                None => {
                    &&& final(self).targets@ == old(self).targets@
                    &&& final(self).links@ == old(self).links@
                },
                Some((kind, name)) => {
                    let site = site_at(path@, line_number, name);
                    &&& kind == Target ==> final(self).targets@ == filed(old(self).targets@, site)
                        && final(self).links@ == old(self).links@
                    &&& kind == Link ==> final(self).links@ == filed(old(self).links@, site)
                        && final(self).targets@ == old(self).targets@
                },
            },
            index_sites(final(self).targets@).len() + index_sites(final(self).links@).len() == index_sites(
                old(self).targets@,
            ).len() + index_sites(old(self).links@).len() + if line_tag(line@) is Some {
                1int
            } else {
                0int
            },
            line_tag(line@) matches Some((kind, name)) ==> {
                let before = if kind == Target {
                    old(self).targets@
                } else {
                    old(self).links@
                };
                let after = if kind == Target {
                    final(self).targets@
                } else {
                    final(self).links@
                };
                let n = match line_number {
                    Some(n) => n,
                    None => 0u64,
                };
                &&& has_name(after, name)
                &&& index_map(after)[name] == sites_named(before, name).push(
                    TagSite { path: path@, line_number: n, tag: name },
                )
                &&& forall|other: Seq<char>|
                    other != name ==> #[trigger] has_name(after, other) == has_name(before, other)
                        && (has_name(before, other) ==> index_map(after)[other] == index_map(
                        before,
                    )[other])
            },
    {
        proof {
            if let Some((kind, name)) = line_tag(line@) {
                let site = site_at(path@, line_number, name);
                lemma_filed_sites(self.targets@, site);
                lemma_filed_sites(self.links@, site);
            }
        }
        match tag_in_line(line) {
            None => {},
            Some((kind, name)) => {
                let n: u64 = match line_number {
                    Some(n) => n,
                    None => 0,
                };
                let loc = TagLocation { path: path.to_owned(), line_number: n, line_content: name };
                let ghost site = loc@;
                match kind {
                    Target => {
                        let ghost before = self.targets@;
                        self.targets.insert(loc);
                        proof {
                            lemma_names_after_insert(before, self.targets@, site.tag, site);
                        }
                    },
                    Link => {
                        let ghost before = self.links@;
                        self.links.insert(loc);
                        proof {
                            lemma_names_after_insert(before, self.links@, site.tag, site);
                        }
                    },
                }
            },
        }
    }

    /// Moves the tags out of this list, which is left empty.
    pub fn take(&mut self) -> (res: TagList)
        ensures
            res.targets@ == old(self).targets@,
            res.links@ == old(self).links@,
            final(self).targets@ == Seq::<(Seq<char>, Seq<TagSite>)>::empty(),
            final(self).links@ == Seq::<(Seq<char>, Seq<TagSite>)>::empty(),
    {
        let mut res = TagList::new();
        std::mem::swap(&mut res, self);
        res
    }
}

/// All the target sites of the lists, list after list.
pub open spec fn all_targets(lists: Seq<TagList>) -> Seq<TagSite>
    decreases lists.len(),
{
    if lists.len() == 0 {
        Seq::empty()
    } else {
        all_targets(lists.drop_last()) + index_sites(lists.last().targets@)
    }
}

/// All the link sites of the lists, list after list.
pub open spec fn all_links(lists: Seq<TagList>) -> Seq<TagSite>
    decreases lists.len(),
{
    if lists.len() == 0 {
        Seq::empty()
    } else {
        all_links(lists.drop_last()) + index_sites(lists.last().links@)
    }
}

/// The tag lists that several workers gathered, one list per worker.
pub struct CombinedTagList {
    pub tag_lists: Vec<TagList>,
}

impl CombinedTagList {
    /// No list yet.
    pub fn new() -> (res: CombinedTagList)
        ensures
            res.tag_lists@.len() == 0,
    {
        CombinedTagList { tag_lists: Vec::new() }
    }

    /// Takes over what a worker gathered: its tags become a new list at the end, and the
    /// worker's list is left empty. No site is lost and none is added.
    pub fn absorb(&mut self, buffer: &mut TagList)
        ensures
            final(self).tag_lists@.len() == old(self).tag_lists@.len() + 1,
            final(self).tag_lists@.drop_last() == old(self).tag_lists@,
            final(self).tag_lists@.last().targets@ == old(buffer).targets@,
            final(self).tag_lists@.last().links@ == old(buffer).links@,
            final(buffer).targets@ == Seq::<(Seq<char>, Seq<TagSite>)>::empty(),
            final(buffer).links@ == Seq::<(Seq<char>, Seq<TagSite>)>::empty(),
            all_targets(final(self).tag_lists@) == all_targets(old(self).tag_lists@) + index_sites(
                old(buffer).targets@,
            ),
            all_links(final(self).tag_lists@) == all_links(old(self).tag_lists@) + index_sites(
                old(buffer).links@,
            ),
    {
        let list = buffer.take();
        self.tag_lists.push(list);
        assert(self.tag_lists@.drop_last() =~= old(self).tag_lists@);
    }
}

} // verus!
