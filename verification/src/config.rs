use vstd::prelude::*;
use vstd::string::*;
use crate::error::{BeError, ErrorView};
use crate::text::{texts, compare_tags, tag_lt, TagOrder, lemma_tag_lt_irreflexive, lemma_tag_lt_transitive, lemma_tag_lt_total};

verus! {

/// A single saved command.
#[derive(Debug, Clone)]
pub struct CommandEntry {
    pub description: String,
    pub command: String,
}

/// A saved command with its text taken by value.
pub struct EntryView {
    pub description: Seq<char>,
    pub command: Seq<char>,
}

impl View for CommandEntry {
    type V = EntryView;

    open spec fn view(&self) -> EntryView {
        EntryView { description: self.description@, command: self.command@ }
    }
}

/// Tags in strictly increasing tag order.
pub open spec fn tags_sorted(s: Seq<Seq<char>>) -> bool {
    forall|i: int, j: int| 0 <= i < j < s.len() ==> tag_lt(#[trigger] s[i], #[trigger] s[j])
}

/// The tags of `keys`, listed in tag order.
pub open spec fn sorted_tags(keys: Set<Seq<char>>) -> Seq<Seq<char>> {
    choose|s: Seq<Seq<char>>| tags_sorted(s) && s.to_set() == keys
}

/// `s` with `x` placed where it belongs in tag order.
pub open spec fn insert_in_order(s: Seq<Seq<char>>, x: Seq<char>) -> Seq<Seq<char>>
    decreases s.len(),
{
    if s.len() == 0 {
        seq![x]
    } else if tag_lt(x, s[0]) {
        seq![x] + s
    } else {
        seq![s[0]] + insert_in_order(s.drop_first(), x)
    }
}

proof fn lemma_insert_in_order(s: Seq<Seq<char>>, x: Seq<char>)
    requires
        tags_sorted(s),
        !s.contains(x),
    ensures
        tags_sorted(insert_in_order(s, x)),
        insert_in_order(s, x).to_set() == s.to_set().insert(x),
        insert_in_order(s, x).len() == s.len() + 1,
        forall|y: Seq<char>| #[trigger] insert_in_order(s, x).contains(y) <==> (s.contains(y) || y == x),
    decreases s.len(),
{
    broadcast use vstd::seq_lib::group_seq_properties;
    let r = insert_in_order(s, x);
    if s.len() == 0 {
        assert(r =~= seq![x]);
        assert forall|y: Seq<char>| #[trigger] r.contains(y) <==> (s.contains(y) || y == x) by {
            if r.contains(y) {
                let k = choose|k: int| 0 <= k < r.len() && r[k] == y;
            }
            if y == x {
                assert(r[0] == x);
            }
        }
    } else if tag_lt(x, s[0]) {
        assert forall|i: int, j: int| 0 <= i < j < r.len() implies tag_lt(#[trigger] r[i], #[trigger] r[j]) by {
            if i == 0 {
                if j > 1 {
                    assert(tag_lt(s[0], s[j - 1]));
                    lemma_tag_lt_transitive(x, s[0], s[j - 1]);
                }
            } else {
                assert(tag_lt(s[i - 1], s[j - 1]));
            }
        }
        assert forall|y: Seq<char>| #[trigger] r.contains(y) <==> (s.contains(y) || y == x) by {
            if r.contains(y) {
                let k = choose|k: int| 0 <= k < r.len() && r[k] == y;
                if k > 0 {
                    assert(s[k - 1] == y);
                }
            }
            if s.contains(y) {
                let k = choose|k: int| 0 <= k < s.len() && s[k] == y;
                assert(r[k + 1] == y);
            }
            if y == x {
                assert(r[0] == x);
            }
        }
    } else {
        let t = s.drop_first();
        assert(tags_sorted(t)) by {
            assert forall|i: int, j: int| 0 <= i < j < t.len() implies tag_lt(#[trigger] t[i], #[trigger] t[j]) by {
                assert(tag_lt(s[i + 1], s[j + 1]));
            }
        }
        assert(!t.contains(x)) by {
            if t.contains(x) {
                let k = choose|k: int| 0 <= k < t.len() && t[k] == x;
                assert(s[k + 1] == x);
            }
        }
        lemma_insert_in_order(t, x);
        let u = insert_in_order(t, x);
        assert(r =~= seq![s[0]] + u);
        assert(x != s[0]) by {
            assert(s.contains(s[0]));
        }
        lemma_tag_lt_total(x, s[0]);
        assert forall|i: int, j: int| 0 <= i < j < r.len() implies tag_lt(#[trigger] r[i], #[trigger] r[j]) by {
            if i == 0 {
                assert(r[j] == u[j - 1]);
                assert(u.contains(u[j - 1]));
                if u[j - 1] == x {
                } else {
                    assert(t.contains(u[j - 1]));
                    let k = choose|k: int| 0 <= k < t.len() && t[k] == u[j - 1];
                    assert(tag_lt(s[0], s[k + 1]));
                }
            } else {
                assert(r[i] == u[i - 1]);
                assert(r[j] == u[j - 1]);
            }
        }
        assert forall|y: Seq<char>| #[trigger] r.contains(y) <==> (s.contains(y) || y == x) by {
            if r.contains(y) {
                let k = choose|k: int| 0 <= k < r.len() && r[k] == y;
                if k > 0 {
                    assert(u[k - 1] == y);
                    assert(u.contains(y));
                    if t.contains(y) {
                        let m = choose|m: int| 0 <= m < t.len() && t[m] == y;
                        assert(s[m + 1] == y);
                    }
                }
            }
            if s.contains(y) {
                let k = choose|k: int| 0 <= k < s.len() && s[k] == y;
                if k > 0 {
                    assert(t[k - 1] == y);
                    assert(t.contains(y));
                    assert(u.contains(y));
                    let m = choose|m: int| 0 <= m < u.len() && u[m] == y;
                    assert(r[m + 1] == y);
                }
            }
            if y == x {
                assert(u.contains(x));
                let m = choose|m: int| 0 <= m < u.len() && u[m] == x;
                assert(r[m + 1] == x);
            }
        }
    }
    assert(r.to_set() =~= s.to_set().insert(x));
}

/// Every finite set of tags can be listed in tag order.
pub proof fn lemma_sorted_tags_exist(keys: Set<Seq<char>>)
    requires
        keys.finite(),
    ensures
        tags_sorted(sorted_tags(keys)),
        sorted_tags(keys).to_set() == keys,
        sorted_tags(keys).len() == keys.len(),
{
    let w = sorted_listing_of(keys);
    assert(tags_sorted(w) && w.to_set() == keys);
    let s = sorted_tags(keys);
    lemma_sorted_tags_unique(s, w);
}

/// A sorted listing of a finite set of tags, built one tag at a time.
proof fn sorted_listing_of(keys: Set<Seq<char>>) -> (w: Seq<Seq<char>>)
    requires
        keys.finite(),
    ensures
        tags_sorted(w),
        w.to_set() == keys,
        w.len() == keys.len(),
    decreases keys.len(),
{
    broadcast use vstd::seq_lib::group_seq_properties;
    if keys.len() == 0 {
        assert(keys =~= Set::empty());
        let w = Seq::<Seq<char>>::empty();
        assert(w.to_set() =~= keys);
        w
    } else {
        let x = keys.choose();
        let rest = keys.remove(x);
        let v = sorted_listing_of(rest);
        assert(!v.contains(x)) by {
            if v.contains(x) {
                assert(v.to_set().contains(x));
            }
        }
        lemma_insert_in_order(v, x);
        let w = insert_in_order(v, x);
        assert(w.to_set() =~= keys);
        w
    }
}

/// Two sorted listings of the same tags are the same listing.
pub proof fn lemma_sorted_tags_unique(s1: Seq<Seq<char>>, s2: Seq<Seq<char>>)
    requires
        tags_sorted(s1),
        tags_sorted(s2),
        s1.to_set() == s2.to_set(),
    ensures
        s1 == s2,
    decreases s1.len(),
{
    broadcast use vstd::seq_lib::group_seq_properties;
    if s1.len() == 0 {
        if s2.len() > 0 {
            assert(s2.to_set().contains(s2[0]));
        }
        assert(s1 =~= s2);
    } else {
        assert(s1.to_set().contains(s1[0]));
        assert(s2.contains(s1[0]));
        let j = choose|j: int| 0 <= j < s2.len() && s2[j] == s1[0];
        assert(s2.to_set().contains(s2[0]));
        assert(s1.contains(s2[0]));
        let i = choose|i: int| 0 <= i < s1.len() && s1[i] == s2[0];
        if j > 0 {
            assert(tag_lt(s2[0], s2[j]));
            if i > 0 {
                assert(tag_lt(s1[0], s1[i]));
                lemma_tag_lt_transitive(s1[0], s1[i], s1[0]);
            }
            lemma_tag_lt_irreflexive(s1[0]);
        }
        assert(s1[0] == s2[0]);
        let x = s1[0];
        let r1 = s1.drop_first();
        let r2 = s2.drop_first();
        assert(!r1.contains(x)) by {
            if r1.contains(x) {
                let k = choose|k: int| 0 <= k < r1.len() && r1[k] == x;
                assert(tag_lt(s1[0], s1[k + 1]));
                lemma_tag_lt_irreflexive(x);
            }
        }
        assert(!r2.contains(x)) by {
            if r2.contains(x) {
                let k = choose|k: int| 0 <= k < r2.len() && r2[k] == x;
                assert(tag_lt(s2[0], s2[k + 1]));
                lemma_tag_lt_irreflexive(x);
            }
        }
        assert(r1.to_set() =~= s1.to_set().remove(x)) by {
            assert forall|y| r1.to_set().contains(y) <==> s1.to_set().remove(x).contains(y) by {
                if r1.contains(y) {
                    let k = choose|k: int| 0 <= k < r1.len() && r1[k] == y;
                    assert(s1[k + 1] == y);
                }
                if s1.contains(y) && y != x {
                    let k = choose|k: int| 0 <= k < s1.len() && s1[k] == y;
                    assert(r1[k - 1] == y);
                }
            }
        }
        assert(r2.to_set() =~= s2.to_set().remove(x)) by {
            assert forall|y| r2.to_set().contains(y) <==> s2.to_set().remove(x).contains(y) by {
                if r2.contains(y) {
                    let k = choose|k: int| 0 <= k < r2.len() && r2[k] == y;
                    assert(s2[k + 1] == y);
                }
                if s2.contains(y) && y != x {
                    let k = choose|k: int| 0 <= k < s2.len() && s2[k] == y;
                    assert(r2[k - 1] == y);
                }
            }
        }
        lemma_sorted_tags_unique(r1, r2);
        assert(s1 =~= seq![x] + r1);
        assert(s2 =~= seq![x] + r2);
    }
}

/// The saved commands, keyed by tag.
///
/// The entries are kept in strictly increasing tag order, so each tag occurs
/// once and listing them gives the tags in order.
#[derive(Debug)]
pub struct Config {
    entries: Vec<(String, CommandEntry)>,
}

/// Whether a listing of tagged entries has an entry under `k`.
pub open spec fn lists_tag(s: Seq<(Seq<char>, EntryView)>, k: Seq<char>) -> bool {
    exists|i: int| 0 <= i < s.len() && s[i].0 == k
}

/// The entry that a listing of tagged entries holds under `k`.
pub open spec fn listed_entry(s: Seq<(Seq<char>, EntryView)>, k: Seq<char>) -> EntryView {
    s[choose|i: int| 0 <= i < s.len() && s[i].0 == k].1
}

/// The map that a listing of tagged entries stands for.
pub open spec fn entries_map(s: Seq<(Seq<char>, EntryView)>) -> Map<Seq<char>, EntryView> {
    Map::new(|k: Seq<char>| lists_tag(s, k), |k: Seq<char>| listed_entry(s, k))
}

/// The tags of a listing of tagged entries.
pub open spec fn entry_tags(s: Seq<(Seq<char>, EntryView)>) -> Seq<Seq<char>> {
    s.map_values(|p: (Seq<char>, EntryView)| p.0)
}

/// The tagged entries of a sequence of pairs, taken by value.
pub open spec fn listing_of(v: Seq<(String, CommandEntry)>) -> Seq<(Seq<char>, EntryView)> {
    v.map_values(|p: (String, CommandEntry)| (p.0@, p.1@))
}

impl Config {
    /// The entries in the order they are kept.
    pub closed spec fn listing(self) -> Seq<(Seq<char>, EntryView)> {
        listing_of(self.entries@)
    }

    /// Well-formedness, kept by every operation: the entries are in strictly
    /// increasing tag order.
    #[verifier::type_invariant]
    pub closed spec fn wf(self) -> bool {
        tags_sorted(entry_tags(self.listing()))
    }

    /// The tags of the configuration, in the order they are listed.
    pub closed spec fn tag_order(self) -> Seq<Seq<char>> {
        entry_tags(self.listing())
    }
}

impl View for Config {
    type V = Map<Seq<char>, EntryView>;

    closed spec fn view(&self) -> Map<Seq<char>, EntryView> {
        entries_map(self.listing())
    }
}

/// In a listing with sorted tags, the entry at each position is the one the map gives.
proof fn lemma_entries_map_at(s: Seq<(Seq<char>, EntryView)>, i: int)
    requires
        tags_sorted(entry_tags(s)),
        0 <= i < s.len(),
    ensures
        entries_map(s).contains_key(s[i].0),
        entries_map(s)[s[i].0] == s[i].1,
{
    let k = s[i].0;
    assert(entry_tags(s)[i] == k);
    assert forall|j: int| 0 <= j < s.len() && s[j].0 == k implies j == i by {
        if j != i {
            assert(entry_tags(s)[j] == k);
            if j < i {
                assert(tag_lt(entry_tags(s)[j], entry_tags(s)[i]));
            } else {
                assert(tag_lt(entry_tags(s)[i], entry_tags(s)[j]));
            }
            lemma_tag_lt_irreflexive(k);
        }
    }
    assert(lists_tag(s, k));
    assert(listed_entry(s, k) == s[i].1);
    assert(entries_map(s).dom().contains(k));
    assert(entries_map(s)[k] == listed_entry(s, k));
}

/// The keys of the map are the listed tags.
proof fn lemma_entries_map_dom(s: Seq<(Seq<char>, EntryView)>)
    ensures
        entries_map(s).dom() == entry_tags(s).to_set(),
{
    broadcast use vstd::seq_lib::group_seq_properties;
    assert forall|k| entries_map(s).dom().contains(k) <==> entry_tags(s).to_set().contains(k) by {
        if entries_map(s).dom().contains(k) {
            assert(lists_tag(s, k));
            let i = choose|i: int| 0 <= i < s.len() && s[i].0 == k;
            assert(entry_tags(s)[i] == k);
        }
        if entry_tags(s).contains(k) {
            let i = choose|i: int| 0 <= i < entry_tags(s).len() && entry_tags(s)[i] == k;
            assert(s[i].0 == k);
            assert(lists_tag(s, k));
        }
    }
    assert(entries_map(s).dom() =~= entry_tags(s).to_set());
}

impl Config {
    /// The listed tags are the map's keys, in tag order.
    pub proof fn lemma_tag_order(self)
        requires
            self.wf(),
        ensures
            tags_sorted(self.tag_order()),
            self.tag_order().to_set() == self@.dom(),
            self.tag_order() == sorted_tags(self@.dom()),
            self.tag_order().len() == self.listing().len(),
            self@.dom().finite(),
    {
        lemma_entries_map_dom(self.listing());
        let s = sorted_tags(self@.dom());
        assert(tags_sorted(s) && s.to_set() == self@.dom());
        lemma_sorted_tags_unique(self.tag_order(), s);
    }
}

/// Inserting a new tag at its place in tag order keeps the listing sorted and
/// adds the entry to the map.
proof fn lemma_listing_insert(s: Seq<(Seq<char>, EntryView)>, pos: int, k: Seq<char>, e: EntryView)
    requires
        tags_sorted(entry_tags(s)),
        0 <= pos <= s.len(),
        forall|i: int| 0 <= i < pos ==> tag_lt(#[trigger] s[i].0, k),
        pos < s.len() ==> tag_lt(k, s[pos].0),
    ensures
        tags_sorted(entry_tags(s.insert(pos, (k, e)))),
        entries_map(s.insert(pos, (k, e))) == entries_map(s).insert(k, e),
        !entries_map(s).contains_key(k),
{
    let t = s.insert(pos, (k, e));
    assert forall|i: int, j: int| 0 <= i < j < t.len() implies tag_lt(
        #[trigger] entry_tags(t)[i],
        #[trigger] entry_tags(t)[j],
    ) by {
        assert(entry_tags(t)[i] == t[i].0);
        assert(entry_tags(t)[j] == t[j].0);
        if i < pos && j < pos {
            assert(tag_lt(entry_tags(s)[i], entry_tags(s)[j]));
        } else if i < pos && j == pos {
        } else if i < pos {
            assert(tag_lt(entry_tags(s)[i], entry_tags(s)[j - 1]));
        } else if i == pos {
            if j - 1 > pos {
                assert(tag_lt(entry_tags(s)[pos], entry_tags(s)[j - 1]));
                lemma_tag_lt_transitive(k, s[pos].0, s[j - 1].0);
            }
        } else {
            assert(tag_lt(entry_tags(s)[i - 1], entry_tags(s)[j - 1]));
        }
    }
    assert forall|i: int| 0 <= i < s.len() implies s[i].0 != k by {
        if i >= pos {
            if i > pos {
                assert(tag_lt(entry_tags(s)[pos], entry_tags(s)[i]));
                lemma_tag_lt_transitive(k, s[pos].0, s[i].0);
            }
            lemma_tag_lt_irreflexive(k);
        } else {
            lemma_tag_lt_irreflexive(k);
        }
    }
    lemma_map_of_sorted(t);
    lemma_map_of_sorted(s);
    assert forall|x: Seq<char>| #[trigger] entries_map(t).contains_key(x) <==> entries_map(s).insert(k, e).contains_key(x) by {
        if entries_map(t).contains_key(x) {
            let i = choose|i: int| 0 <= i < t.len() && t[i].0 == x;
            if i < pos {
                assert(s[i].0 == x);
            } else if i > pos {
                assert(s[i - 1].0 == x);
            }
        }
        if entries_map(s).contains_key(x) {
            let i = choose|i: int| 0 <= i < s.len() && s[i].0 == x;
            if i < pos {
                assert(t[i].0 == x);
            } else {
                assert(t[i + 1].0 == x);
            }
        }
        if x == k {
            assert(t[pos].0 == x);
        }
    }
    assert forall|x: Seq<char>| #[trigger] entries_map(t).contains_key(x) implies entries_map(t)[x] == entries_map(s).insert(k, e)[x] by {
        let i = choose|i: int| 0 <= i < t.len() && t[i].0 == x;
        if i < pos {
            assert(s[i] == t[i]);
        } else if i > pos {
            assert(s[i - 1] == t[i]);
        }
    }
    assert(entries_map(t) =~= entries_map(s).insert(k, e));
}

/// In a sorted listing the map has exactly the listed tags, each with its listed entry.
proof fn lemma_map_of_sorted(s: Seq<(Seq<char>, EntryView)>)
    requires
        tags_sorted(entry_tags(s)),
    ensures
        forall|i: int| 0 <= i < s.len() ==> #[trigger] entries_map(s).contains_key(s[i].0)
            && entries_map(s)[s[i].0] == s[i].1,
        forall|k: Seq<char>| #[trigger] entries_map(s).contains_key(k) ==> exists|i: int|
            0 <= i < s.len() && s[i].0 == k,
{
    assert forall|i: int| 0 <= i < s.len() implies #[trigger] entries_map(s).contains_key(s[i].0)
        && entries_map(s)[s[i].0] == s[i].1 by {
        lemma_entries_map_at(s, i);
    }
    assert forall|k: Seq<char>| #[trigger] entries_map(s).contains_key(k) implies exists|i: int|
        0 <= i < s.len() && s[i].0 == k by {
        assert(lists_tag(s, k));
    }
}

/// Replacing the entry at a position keeps the listing sorted and updates the map.
proof fn lemma_listing_update(s: Seq<(Seq<char>, EntryView)>, pos: int, e: EntryView)
    requires
        tags_sorted(entry_tags(s)),
        0 <= pos < s.len(),
    ensures
        tags_sorted(entry_tags(s.update(pos, (s[pos].0, e)))),
        entries_map(s.update(pos, (s[pos].0, e))) == entries_map(s).insert(s[pos].0, e),
{
    let k = s[pos].0;
    let t = s.update(pos, (k, e));
    assert(entry_tags(t) =~= entry_tags(s));
    lemma_map_of_sorted(t);
    lemma_map_of_sorted(s);
    assert forall|x: Seq<char>| #[trigger] entries_map(t).contains_key(x) <==> entries_map(s).insert(k, e).contains_key(x) by {
        if entries_map(t).contains_key(x) {
            let i = choose|i: int| 0 <= i < t.len() && t[i].0 == x;
            assert(s[i].0 == x);
        }
        if entries_map(s).contains_key(x) {
            let i = choose|i: int| 0 <= i < s.len() && s[i].0 == x;
            assert(t[i].0 == x);
        }
        if x == k {
            assert(t[pos].0 == x);
        }
    }
    assert forall|x: Seq<char>| #[trigger] entries_map(t).contains_key(x) implies entries_map(t)[x] == entries_map(s).insert(k, e)[x] by {
        let i = choose|i: int| 0 <= i < t.len() && t[i].0 == x;
        if i != pos {
            assert(s[i] == t[i]);
            if x == k {
                assert(entry_tags(t)[i] == entry_tags(t)[pos]);
                if i < pos {
                    assert(tag_lt(entry_tags(t)[i], entry_tags(t)[pos]));
                } else {
                    assert(tag_lt(entry_tags(t)[pos], entry_tags(t)[i]));
                }
                lemma_tag_lt_irreflexive(k);
            }
        }
    }
    assert(entries_map(t) =~= entries_map(s).insert(k, e));
}

/// Removing the entry at a position keeps the listing sorted and removes its tag from the map.
proof fn lemma_listing_remove(s: Seq<(Seq<char>, EntryView)>, pos: int)
    requires
        tags_sorted(entry_tags(s)),
        0 <= pos < s.len(),
    ensures
        tags_sorted(entry_tags(s.remove(pos))),
        entries_map(s.remove(pos)) == entries_map(s).remove(s[pos].0),
{
    let k = s[pos].0;
    let t = s.remove(pos);
    assert forall|i: int, j: int| 0 <= i < j < t.len() implies tag_lt(
        #[trigger] entry_tags(t)[i],
        #[trigger] entry_tags(t)[j],
    ) by {
        let i2 = if i < pos { i } else { i + 1 };
        let j2 = if j < pos { j } else { j + 1 };
        assert(tag_lt(entry_tags(s)[i2], entry_tags(s)[j2]));
    }
    lemma_map_of_sorted(t);
    lemma_map_of_sorted(s);
    assert forall|x: Seq<char>| #[trigger] entries_map(t).contains_key(x) <==> entries_map(s).remove(k).contains_key(x) by {
        if entries_map(t).contains_key(x) {
            let i = choose|i: int| 0 <= i < t.len() && t[i].0 == x;
            let i2 = if i < pos { i } else { i + 1 };
            assert(s[i2].0 == x);
            assert(tag_lt(entry_tags(s)[i2], entry_tags(s)[pos]) || tag_lt(entry_tags(s)[pos], entry_tags(s)[i2]));
            if x == k {
                lemma_tag_lt_irreflexive(k);
            }
        }
        if entries_map(s).contains_key(x) && x != k {
            let i = choose|i: int| 0 <= i < s.len() && s[i].0 == x;
            if i < pos {
                assert(t[i].0 == x);
            } else {
                assert(t[i - 1].0 == x);
            }
        }
    }
    assert forall|x: Seq<char>| #[trigger] entries_map(t).contains_key(x) implies entries_map(t)[x] == entries_map(s).remove(k)[x] by {
        let i = choose|i: int| 0 <= i < t.len() && t[i].0 == x;
        let i2 = if i < pos { i } else { i + 1 };
        assert(s[i2] == t[i]);
    }
    assert(entries_map(t) =~= entries_map(s).remove(k));
}

/// Whether `c` may stand in a tag: an ASCII letter or digit, `_` or `-`.
pub open spec fn is_tag_char(c: char) -> bool {
    ||| ('a' as int) <= (c as int) <= ('z' as int)
    ||| ('A' as int) <= (c as int) <= ('Z' as int)
    ||| ('0' as int) <= (c as int) <= ('9' as int)
    ||| c == '_'
    ||| c == '-'
}

/// The names of the built-in subcommands, which cannot be tags.
pub open spec fn reserved_tags() -> Seq<Seq<char>> {
    seq!["init"@, "manager"@, "list"@, "add"@, "remove"@, "edit"@, "help"@]
}

/// Why `tag` is refused as a tag, or `None` when it is a valid tag.
pub open spec fn tag_problem(tag: Seq<char>) -> Option<ErrorView> {
    if tag.len() == 0 {
        Some(ErrorView::EmptyTag)
    } else if !(forall|i: int| 0 <= i < tag.len() ==> is_tag_char(#[trigger] tag[i])) {
        Some(ErrorView::InvalidTag(tag))
    } else if reserved_tags().contains(tag) {
        Some(ErrorView::ReservedTag(tag))
    } else {
        None
    }
}

fn is_tag_char_exec(c: char) -> (r: bool)
    ensures
        r == is_tag_char(c),
{
    let v = c as u32;
    (97 <= v && v <= 122) || (65 <= v && v <= 90) || (48 <= v && v <= 57) || c == '_' || c == '-'
}

fn is_reserved(tag: &str) -> (r: bool)
    ensures
        r == reserved_tags().contains(tag@),
{
    let names = ["init", "manager", "list", "add", "remove", "edit", "help"];
    let mut i: usize = 0;
    while i < 7
        invariant
            i <= 7,
            names@.len() == 7,
            forall|j: int| 0 <= j < 7 ==> (#[trigger] names@[j])@ == reserved_tags()[j],
            forall|j: int| 0 <= j < i ==> reserved_tags()[j] != tag@,
        decreases 7 - i,
    {
        if compare_tags(tag, names[i]) == TagOrder::Same {
            assert(reserved_tags()[i as int] == tag@);
            return true;
        }
        i = i + 1;
    }
    proof {
        if reserved_tags().contains(tag@) {
            let j = choose|j: int| 0 <= j < reserved_tags().len() && reserved_tags()[j] == tag@;
            assert(reserved_tags().len() == 7);
        }
    }
    false
}

impl Config {
    /// An empty configuration.
    pub fn new() -> (r: Config)
        ensures
            r@ == Map::<Seq<char>, EntryView>::empty(),
    {
        let r = Config { entries: Vec::new() };
        assert(r.listing() =~= Seq::empty());
        assert(entries_map(r.listing()) =~= Map::<Seq<char>, EntryView>::empty());
        r
    }

    /// Finds where `tag` stands, or would stand, in the listing.
    fn locate(&self, tag: &str) -> (r: (bool, usize))
        requires
            self.wf(),
        ensures
            r.1 <= self.listing().len(),
            forall|i: int| 0 <= i < r.1 ==> tag_lt(#[trigger] self.listing()[i].0, tag@),
            r.0 ==> r.1 < self.listing().len() && self.listing()[r.1 as int].0 == tag@,
            !r.0 ==> (r.1 < self.listing().len() ==> tag_lt(tag@, self.listing()[r.1 as int].0)),
            r.0 <==> self@.contains_key(tag@),
    {
        let n = self.entries.len();
        let mut i: usize = 0;
        while i < n
            invariant
                self.wf(),
                n == self.listing().len(),
                i <= n,
                forall|j: int| 0 <= j < i ==> tag_lt(#[trigger] self.listing()[j].0, tag@),
            decreases n - i,
        {
            let o = compare_tags(self.entries[i].0.as_str(), tag);
            assert(self.listing()[i as int].0 == self.entries@[i as int].0@);
            if o == TagOrder::Same {
                proof {
                    lemma_map_of_sorted(self.listing());
                }
                return (true, i);
            } else if o == TagOrder::After {
                proof {
                    self.lemma_absent(tag@, i as int);
                }
                return (false, i);
            }
            i = i + 1;
        }
        proof {
            self.lemma_absent(tag@, i as int);
        }
        (false, i)
    }

    /// A tag that sorts after the first `pos` tags and before the rest is not in the map.
    proof fn lemma_absent(self, k: Seq<char>, pos: int)
        requires
            self.wf(),
            0 <= pos <= self.listing().len(),
            forall|j: int| 0 <= j < pos ==> tag_lt(#[trigger] self.listing()[j].0, k),
            pos < self.listing().len() ==> tag_lt(k, self.listing()[pos].0),
        ensures
            !self@.contains_key(k),
    {
        let s = self.listing();
        lemma_map_of_sorted(s);
        if self@.contains_key(k) {
            let i = choose|i: int| 0 <= i < s.len() && s[i].0 == k;
            if i > pos {
                assert(entry_tags(s)[pos] == s[pos].0);
                assert(entry_tags(s)[i] == s[i].0);
                assert(tag_lt(entry_tags(s)[pos], entry_tags(s)[i]));
                lemma_tag_lt_transitive(k, s[pos].0, k);
            }
            lemma_tag_lt_irreflexive(k);
        }
    }

    /// The command saved under `tag`, if any.
    pub fn get(&self, tag: &str) -> (r: Option<&CommandEntry>)
        ensures
            r is Some <==> self@.contains_key(tag@),
            r matches Some(e) ==> e@ == self@[tag@],
    {
        proof {
            use_type_invariant(self);
        }
        let (found, pos) = self.locate(tag);
        if found {
            proof {
                lemma_map_of_sorted(self.listing());
                assert(self.listing()[pos as int].1 == self.entries@[pos as int].1@);
            }
            Some(&self.entries[pos].1)
        } else {
            None
        }
    }

    /// Saves `entry` under `tag`, replacing whatever was saved under it.
    pub fn insert(&mut self, tag: String, entry: CommandEntry)
        ensures
            final(self)@ == old(self)@.insert(tag@, entry@),
    {
        proof {
            use_type_invariant(&*self);
        }
        let (found, pos) = self.locate(tag.as_str());
        let ghost s = self.listing();
        let ghost k = tag@;
        let ghost e = entry@;
        let mut entries: Vec<(String, CommandEntry)> = Vec::new();
        std::mem::swap(&mut entries, &mut self.entries);
        if found {
            entries.set(pos, (tag, entry));
            proof {
                lemma_listing_update(s, pos as int, e);
                assert(listing_of(entries@) =~= s.update(pos as int, (s[pos as int].0, e)));
            }
        } else {
            entries.insert(pos, (tag, entry));
            proof {
                lemma_listing_insert(s, pos as int, k, e);
                assert(listing_of(entries@) =~= s.insert(pos as int, (k, e)));
            }
        }
        self.entries = entries;
    }

    /// Checks that `tag` is non-empty, made of `[a-zA-Z0-9_-]`, and not the
    /// name of a built-in subcommand.
    pub fn validate_tag(tag: &str) -> (r: Result<(), BeError>)
        ensures
            r is Ok <==> tag_problem(tag@) is None,
            r matches Err(err) ==> tag_problem(tag@) == Some(err@),
    {
        if tag.is_empty() {
            return Err(BeError::EmptyTag);
        }
        let n = tag.unicode_len();
        let mut i: usize = 0;
        while i < n
            invariant
                n == tag@.len(),
                i <= n,
                forall|j: int| 0 <= j < i ==> is_tag_char(#[trigger] tag@[j]),
            decreases n - i,
        {
            if !is_tag_char_exec(tag.get_char(i)) {
                return Err(BeError::InvalidTag(String::from_str(tag)));
            }
            i = i + 1;
        }
        if is_reserved(tag) {
            return Err(BeError::ReservedTag(String::from_str(tag)));
        }
        Ok(())
    }
}

/// The text of an optional string argument.
pub open spec fn opt_text(o: Option<&str>) -> Option<Seq<char>> {
    match o {
        Some(t) => Some(t@),
        None => None,
    }
}

/// An entry with its command and description replaced by those given.
pub open spec fn edited_entry(
    e: EntryView,
    command: Option<Seq<char>>,
    description: Option<Seq<char>>,
) -> EntryView {
    EntryView {
        command: match command {
            Some(c) => c,
            None => e.command,
        },
        description: match description {
            Some(d) => d,
            None => e.description,
        },
    }
}

/// What adding a command does to a configuration: the new map, or the refusal.
pub open spec fn add_outcome(
    m: Map<Seq<char>, EntryView>,
    tag: Seq<char>,
    command: Seq<char>,
    description: Seq<char>,
) -> Result<Map<Seq<char>, EntryView>, ErrorView> {
    match tag_problem(tag) {
        Some(p) => Err(p),
        None => if m.contains_key(tag) {
            Err(ErrorView::TagExists(tag))
        } else {
            Ok(m.insert(tag, EntryView { description, command }))
        },
    }
}

/// What editing a command does to a configuration: the new map, or the refusal.
pub open spec fn edit_outcome(
    m: Map<Seq<char>, EntryView>,
    tag: Seq<char>,
    command: Option<Seq<char>>,
    description: Option<Seq<char>>,
) -> Result<Map<Seq<char>, EntryView>, ErrorView> {
    if m.contains_key(tag) {
        Ok(m.insert(tag, edited_entry(m[tag], command, description)))
    } else {
        Err(ErrorView::TagNotFound(tag))
    }
}

impl Config {
    /// Saves a new command under `tag`. The tag must be valid and not yet used.
    pub fn add(&mut self, tag: &str, command: &str, description: &str) -> (r: Result<(), BeError>)
        ensures
            match add_outcome(old(self)@, tag@, command@, description@) {
                Ok(m) => r is Ok && final(self)@ == m,
                Err(why) => r matches Err(err) && err@ == why && final(self)@ == old(self)@,
            },
    {
        match Config::validate_tag(tag) {
            Err(err) => {
                return Err(err);
            },
            Ok(()) => {},
        }
        if self.get(tag).is_some() {
            return Err(BeError::TagExists(String::from_str(tag)));
        }
        self.insert(
            String::from_str(tag),
            CommandEntry {
                description: String::from_str(description),
                command: String::from_str(command),
            },
        );
        Ok(())
    }

    /// Removes the command saved under `tag` and hands it back.
    pub fn remove(&mut self, tag: &str) -> (r: Result<CommandEntry, BeError>)
        ensures
            old(self)@.contains_key(tag@) ==> (r matches Ok(e) && e@ == old(self)@[tag@]
                && final(self)@ == old(self)@.remove(tag@)),
            !old(self)@.contains_key(tag@) ==> (r matches Err(err) && err@ == ErrorView::TagNotFound(
                tag@,
            ) && final(self)@ == old(self)@),
    {
        proof {
            use_type_invariant(&*self);
        }
        let (found, pos) = self.locate(tag);
        if !found {
            return Err(BeError::TagNotFound(String::from_str(tag)));
        }
        let ghost s = self.listing();
        proof {
            lemma_map_of_sorted(s);
            lemma_listing_remove(s, pos as int);
        }
        let mut entries: Vec<(String, CommandEntry)> = Vec::new();
        std::mem::swap(&mut entries, &mut self.entries);
        let (_t, e) = entries.remove(pos);
        proof {
            assert(listing_of(entries@) =~= s.remove(pos as int));
        }
        self.entries = entries;
        Ok(e)
    }

    /// Replaces the command and/or the description saved under `tag`.
    pub fn edit(&mut self, tag: &str, command: Option<&str>, description: Option<&str>) -> (r:
        Result<(), BeError>)
        ensures
            match edit_outcome(old(self)@, tag@, opt_text(command), opt_text(description)) {
                Ok(m) => r is Ok && final(self)@ == m,
                Err(why) => r matches Err(err) && err@ == why && final(self)@ == old(self)@,
            },
    {
        proof {
            use_type_invariant(&*self);
        }
        let (found, pos) = self.locate(tag);
        if !found {
            return Err(BeError::TagNotFound(String::from_str(tag)));
        }
        let ghost s = self.listing();
        proof {
            lemma_map_of_sorted(s);
            assert(s[pos as int].1 == self.entries@[pos as int].1@);
        }
        let old_entry = &self.entries[pos].1;
        let new_command = match command {
            Some(c) => String::from_str(c),
            None => old_entry.command.clone(),
        };
        let new_description = match description {
            Some(d) => String::from_str(d),
            None => old_entry.description.clone(),
        };
        let new_entry = CommandEntry { description: new_description, command: new_command };
        let key = self.entries[pos].0.clone();
        let mut entries: Vec<(String, CommandEntry)> = Vec::new();
        std::mem::swap(&mut entries, &mut self.entries);
        entries.set(pos, (key, new_entry));
        proof {
            lemma_listing_update(s, pos as int, new_entry@);
            assert(listing_of(entries@) =~= s.update(pos as int, (s[pos as int].0, new_entry@)));
        }
        self.entries = entries;
        Ok(())
    }

    /// The tags, in tag order.
    pub fn tags(&self) -> (r: Vec<String>)
        ensures
            texts(r@) == sorted_tags(self@.dom()),
    {
        proof {
            use_type_invariant(self);
        }
        let n = self.entries.len();
        let mut r: Vec<String> = Vec::new();
        let mut i: usize = 0;
        while i < n
            invariant
                n == self.listing().len(),
                n == self.tag_order().len(),
                i <= n,
                r@.len() == i,
                texts(r@) == self.tag_order().take(i as int),
            decreases n - i,
        {
            let ghost before = r@;
            let t = self.entries[i].0.clone();
            r.push(t);
            proof {
                assert(self.tag_order()[i as int] == self.entries@[i as int].0@);
                assert(r@ == before.push(t));
                assert forall|j: int| 0 <= j <= i implies #[trigger] texts(r@)[j]
                    == self.tag_order().take(i + 1)[j] by {
                    if j < i {
                        assert(r@[j] == before[j]);
                    }
                }
                assert(texts(r@) =~= self.tag_order().take(i + 1));
            }
            i = i + 1;
        }
        proof {
            self.lemma_tag_order();
            assert(self.tag_order().take(n as int) =~= self.tag_order());
        }
        r
    }

    /// The number of saved commands.
    pub fn len(&self) -> (r: usize)
        ensures
            r == self@.len(),
    {
        proof {
            use_type_invariant(self);
        }
        proof {
            self.lemma_len();
        }
        self.entries.len()
    }

    /// Whether no command is saved.
    pub fn is_empty(&self) -> (r: bool)
        ensures
            r <==> self@.dom() == Set::<Seq<char>>::empty(),
    {
        proof {
            use_type_invariant(self);
        }
        proof {
            self.lemma_len();
            self.lemma_tag_order();
            if self.entries@.len() > 0 {
                assert(self.tag_order().to_set().contains(self.tag_order()[0]));
            } else {
                assert(self@.dom() =~= Set::<Seq<char>>::empty());
            }
        }
        self.entries.len() == 0
    }

    proof fn lemma_len(self)
        requires
            self.wf(),
        ensures
            self@.len() == self.entries@.len(),
            self@.dom().finite(),
    {
        self.lemma_tag_order();
        let t = self.tag_order();
        assert(t.no_duplicates()) by {
            assert forall|i: int, j: int| 0 <= i < t.len() && 0 <= j < t.len() && i != j implies t[i]
                != t[j] by {
                if i < j {
                    assert(tag_lt(t[i], t[j]));
                } else {
                    assert(tag_lt(t[j], t[i]));
                }
                lemma_tag_lt_irreflexive(t[i]);
            }
        }
        t.unique_seq_to_set();
    }
}

impl Clone for Config {
    /// A copy of the configuration, entry for entry.
    fn clone(&self) -> (r: Config)
        ensures
            r@ == self@,
    {
        proof {
            use_type_invariant(self);
        }
        let n = self.entries.len();
        let mut entries: Vec<(String, CommandEntry)> = Vec::new();
        let mut i: usize = 0;
        while i < n
            invariant
                n == self.entries@.len(),
                i <= n,
                entries@.len() == i,
                listing_of(entries@) == listing_of(self.entries@).take(i as int),
            decreases n - i,
        {
            let pair = &self.entries[i];
            let copy = (
                pair.0.clone(),
                CommandEntry {
                    description: pair.1.description.clone(),
                    command: pair.1.command.clone(),
                },
            );
            let ghost before = entries@;
            entries.push(copy);
            proof {
                assert(listing_of(entries@) =~= listing_of(self.entries@).take(i + 1)) by {
                    assert(entries@ == before.push(copy));
                    assert forall|j: int| 0 <= j <= i implies #[trigger] listing_of(entries@)[j]
                        == listing_of(self.entries@).take(i + 1)[j] by {
                        if j < i {
                            assert(entries@[j] == before[j]);
                            assert(listing_of(before)[j] == listing_of(self.entries@).take(i as int)[j]);
                        }
                    }
                }
            }
            i = i + 1;
        }
        assert(listing_of(entries@) =~= listing_of(self.entries@));
        Config { entries }
    }
}

impl Default for Config {
    fn default() -> (r: Config)
        ensures
            r@ == Map::<Seq<char>, EntryView>::empty(),
    {
        Config::new()
    }
}

/// The path that `std::path::Path::join` makes of `base` and `part`.
pub uninterp spec fn joined_path(base: Seq<char>, part: Seq<char>) -> Seq<char>;

/// The path that `std::path::PathBuf::pop` leaves of `dir`, or `None` where it
/// has no parent and `pop` leaves it alone.
pub uninterp spec fn popped_path(dir: Seq<char>) -> Option<Seq<char>>;

/// Calls `Path::join`. Its result, which follows the path rules of the
/// platform the library is built for, is named by `joined_path` and not
/// stated further; for paths given as UTF-8 text the joined path is UTF-8
/// text too, so the conversion back to a string loses nothing.
#[verifier::external_body]
fn path_join(base: &str, part: &str) -> (r: String)
    ensures
        r@ == joined_path(base@, part@),
{
    std::path::Path::new(base).join(part).to_string_lossy().into_owned()
}

/// Calls `PathBuf::pop`, which truncates the path to its parent and returns
/// `true`, or returns `false` and does nothing when there is no parent. The
/// parent is the path without its final component, so it is shorter. Which
/// parent that is, is named by `popped_path` and not stated further.
#[verifier::external_body]
fn pop_dir(dir: &mut String) -> (r: bool)
    ensures
        r == popped_path(old(dir)@) is Some,
        r ==> popped_path(old(dir)@) == Some(final(dir)@),
        r ==> final(dir)@.len() < old(dir)@.len(),
        !r ==> final(dir)@ == old(dir)@,
{
    let mut p = std::path::PathBuf::from(dir.as_str());
    let r = p.pop();
    *dir = p.to_string_lossy().into_owned();
    r
}

/// Calls `Path::is_file`. The answer depends on what is on disk at the time
/// of the call, so nothing is stated of it.
#[verifier::external_body]
fn is_file(path: &str) -> bool {
    std::path::Path::new(path).is_file()
}

/// The configuration file that belongs to directory `dir`: `dir/.be/config.toml`.
pub open spec fn config_file_in(dir: Seq<char>) -> Seq<char> {
    joined_path(joined_path(dir, ".be"@), "config.toml"@)
}

/// The directory `k` levels above `start`, if there is one.
pub open spec fn ancestor(start: Seq<char>, k: nat) -> Option<Seq<char>>
    decreases k,
{
    if k == 0 {
        Some(start)
    } else {
        match ancestor(start, (k - 1) as nat) {
            Some(d) => popped_path(d),
            None => None,
        }
    }
}

/// The configuration file that belongs to directory `dir`: `dir/.be/config.toml`.
pub fn config_file_of(dir: &str) -> (r: String)
    ensures
        r@ == config_file_in(dir@),
{
    let be_dir = path_join(dir, ".be");
    path_join(be_dir.as_str(), "config.toml")
}

/// The directories from `start_dir` upward, one parent at a time, ending
/// with the first one that has no parent.
pub fn ancestor_dirs(start_dir: &str) -> (r: Vec<String>)
    ensures
        r@.len() > 0,
        forall|k: int| 0 <= k < r@.len() ==> ancestor(start_dir@, k as nat) == Some(
            #[trigger] r@[k]@,
        ),
        popped_path(r@.last()@) is None,
{
    let mut dirs: Vec<String> = Vec::new();
    let mut dir = String::from_str(start_dir);
    loop
        invariant_except_break
            ancestor(start_dir@, dirs@.len() as nat) == Some(dir@),
        invariant
            forall|k: int| 0 <= k < dirs@.len() ==> ancestor(start_dir@, k as nat) == Some(
                #[trigger] dirs@[k]@,
            ),
        ensures
            dirs@.len() > 0,
            forall|k: int| 0 <= k < dirs@.len() ==> ancestor(start_dir@, k as nat) == Some(
                #[trigger] dirs@[k]@,
            ),
            popped_path(dirs@.last()@) is None,
        decreases dir@.len(),
    {
        let here = dir.clone();
        let ghost before = dirs@;
        dirs.push(here);
        proof {
            assert forall|k: int| 0 <= k < dirs@.len() implies ancestor(start_dir@, k as nat)
                == Some(#[trigger] dirs@[k]@) by {
                if k < before.len() {
                    assert(dirs@[k] == before[k]);
                }
            }
        }
        let ghost above = dir@;
        if !pop_dir(&mut dir) {
            break;
        }
        proof {
            assert(ancestor(start_dir@, dirs@.len() as nat) == popped_path(above));
        }
    }
    dirs
}

/// The candidate at the first position whose answer is `true`, or `None`
/// when no answer is `true`.
pub fn first_found(candidates: &Vec<String>, found: &Vec<bool>) -> (r: Option<String>)
    requires
        found@.len() <= candidates@.len(),
    ensures
        match found@.index_of_first(true) {
            Some(i) => r matches Some(p) && p@ == candidates@[i]@,
            None => r is None,
        },
        r is None <==> forall|j: int| 0 <= j < found@.len() ==> !(#[trigger] found@[j]),
        forall|k: int|
            0 <= k < found@.len() && #[trigger] found@[k] && (forall|j: int|
                0 <= j < k ==> !found@[j]) ==> (r matches Some(p) && p@ == candidates@[k]@),
{
    proof {
        found@.index_of_first_ensures(true);
        if found@.index_of_first(true) is None {
            assert forall|j: int| 0 <= j < found@.len() implies !(#[trigger] found@[j]) by {
                if found@[j] {
                    assert(found@.contains(true));
                }
            }
        }
        assert forall|k: int|
            0 <= k < found@.len() && #[trigger] found@[k] && (forall|j: int|
                0 <= j < k ==> !found@[j]) implies found@.index_of_first(true) == Some(k) by {
            assert(found@.contains(true));
            let i = found@.index_of_first(true)->Some_0;
            if i < k {
                assert(!found@[i]);
            }
        }
    }
    let mut i: usize = 0;
    while i < found.len()
        invariant
            i <= found@.len(),
            found@.len() <= candidates@.len(),
            forall|j: int| 0 <= j < i ==> !(#[trigger] found@[j]),
            match found@.index_of_first(true) {
                Some(index) => {
                    &&& found@.contains(true)
                    &&& 0 <= index < found@.len()
                    &&& found@[index] == true
                    &&& forall|j: int| 0 <= j < index < found@.len() ==> found@[j] != true
                },
                None => !found@.contains(true),
            },
        decreases found@.len() - i,
    {
        if found[i] {
            return Some(candidates[i].clone());
        }
        i = i + 1;
    }
    proof {
        if found@.contains(true) {
            let k = choose|k: int| 0 <= k < found@.len() && found@[k] == true;
        }
    }
    None
}

impl Config {
    /// Walks from `start_dir` upward and returns the first `.be/config.toml`
    /// that is a file, or `None` when no directory on the way has one.
    ///
    /// Each directory's `config_file_of` is asked `is_file` in turn, from
    /// `start_dir` upward, until one answer is `true` or the top is reached;
    /// `first_found` then picks the result from the answers.
    pub fn find_config_path_from(start_dir: &str) -> (r: Option<String>)
        ensures
            r matches Some(p) ==> exists|k: nat| #[trigger] ancestor(start_dir@, k) matches Some(d)
                && p@ == config_file_in(d),
            r is None ==> exists|k: nat| #[trigger] ancestor(start_dir@, k) matches Some(d)
                && popped_path(d) is None,
    {
        let dirs = ancestor_dirs(start_dir);
        let mut candidates: Vec<String> = Vec::new();
        let mut found: Vec<bool> = Vec::new();
        let mut done = false;
        let mut i: usize = 0;
        while i < dirs.len() && !done
            invariant
                i <= dirs@.len(),
                candidates@.len() == i,
                found@.len() == i,
                forall|k: int| 0 <= k < dirs@.len() ==> ancestor(start_dir@, k as nat) == Some(
                    #[trigger] dirs@[k]@,
                ),
                forall|j: int| 0 <= j < i ==> (#[trigger] candidates@[j])@ == config_file_in(
                    dirs@[j]@,
                ),
                done ==> i > 0 && found@[i - 1],
                !done ==> forall|j: int| 0 <= j < i ==> !(#[trigger] found@[j]),
            decreases dirs@.len() - i,
        {
            let candidate = config_file_of(dirs[i].as_str());
            let answer = is_file(candidate.as_str());
            candidates.push(candidate);
            found.push(answer);
            done = answer;
            i = i + 1;
        }
        let r = first_found(&candidates, &found);
        proof {
            found@.index_of_first_ensures(true);
            match found@.index_of_first(true) {
                Some(j) => {
                    assert(ancestor(start_dir@, j as nat) == Some(dirs@[j]@));
                    assert(ancestor(start_dir@, j as nat) matches Some(d) && r->Some_0@
                        == config_file_in(d));
                },
                None => {
                    if done {
                        assert(found@.contains(true)) by {
                            assert(found@[i - 1]);
                        }
                    }
                    let last = (dirs@.len() - 1) as int;
                    assert(ancestor(start_dir@, last as nat) == Some(dirs@[last]@));
                },
            }
        }
        r
    }
}

} // verus!
