//! Tags: named texts, each name at most once.

use vstd::prelude::*;

use crate::text::same;

verus! {

/// A list of names and texts as the mathematics sees it.
pub type TagSeq = Seq<(Seq<char>, Seq<char>)>;

/// The view of a list of names and texts.
pub open spec fn tag_seq(entries: Seq<(String, String)>) -> TagSeq {
    Seq::new(entries.len(), |i: int| (entries[i].0@, entries[i].1@))
}

/// Whether each name occurs at most once.
pub open spec fn unique_names(s: TagSeq) -> bool {
    forall|i: int, j: int| 0 <= i < j < s.len() ==> (#[trigger] s[i]).0 != (#[trigger] s[j]).0
}

/// Whether `name` occurs.
pub open spec fn has_name(s: TagSeq, name: Seq<char>) -> bool {
    exists|i: int| 0 <= i < s.len() && (#[trigger] s[i]).0 == name
}

/// The list with `name` standing for `value`: in its place where the name
/// occurs, and at the end where it does not.
pub open spec fn with_tag(s: TagSeq, name: Seq<char>, value: Seq<char>) -> TagSeq {
    if has_name(s, name) {
        Seq::new(s.len(), |i: int| if s[i].0 == name { (name, value) } else { s[i] })
    } else {
        s.push((name, value))
    }
}

/// The list with each of `more` put in, in order.
pub open spec fn with_tags(s: TagSeq, more: TagSeq) -> TagSeq
    decreases more.len(),
{
    if more.len() == 0 {
        s
    } else {
        with_tag(with_tags(s, more.drop_last()), more.last().0, more.last().1)
    }
}

/// The map from names to texts that a list stands for; a later entry wins.
pub open spec fn tag_map(s: TagSeq) -> Map<Seq<char>, Seq<char>>
    decreases s.len(),
{
    if s.len() == 0 {
        Map::empty()
    } else {
        tag_map(s.drop_last()).insert(s.last().0, s.last().1)
    }
}

/// The map of a list holds its names and, where each name occurs once, gives
/// each entry's text.
pub proof fn lemma_tag_map(s: TagSeq)
    requires
        unique_names(s),
    ensures
        forall|k: Seq<char>| #[trigger] tag_map(s).dom().contains(k) <==> has_name(s, k),
        forall|j: int| 0 <= j < s.len() ==> tag_map(s)[(#[trigger] s[j]).0] == s[j].1,
    decreases s.len(),
{
    if s.len() > 0 {
        let front = s.drop_last();
        assert forall|i: int, j: int| 0 <= i < j < front.len() implies (#[trigger] front[i]).0 != (
        #[trigger] front[j]).0 by {
            assert(front[i] == s[i] && front[j] == s[j]);
        }
        lemma_tag_map(front);
        assert forall|k: Seq<char>| #[trigger] tag_map(s).dom().contains(k) <==> has_name(
            s,
            k,
        ) by {
            if has_name(s, k) {
                let i = choose|i: int| 0 <= i < s.len() && (#[trigger] s[i]).0 == k;
                if i < front.len() {
                    assert(front[i].0 == k);
                    assert(has_name(front, k));
                }
            }
            if has_name(front, k) {
                let i = choose|i: int| 0 <= i < front.len() && (#[trigger] front[i]).0 == k;
                assert(s[i].0 == k);
            }
            assert(s[s.len() - 1] == s.last());
            assert(tag_map(s).dom().contains(k) <==> tag_map(front).dom().contains(k) || k
                == s.last().0);
        }
        assert forall|j: int| 0 <= j < s.len() implies tag_map(s)[(#[trigger] s[j]).0] == s[j].1 by {
            if j < front.len() {
                assert(front[j] == s[j]);
                assert(s[j].0 != s[s.len() - 1].0);
            }
        }
    }
}

/// A list with unique names stands for the map that has its names and gives
/// each entry's text.
proof fn lemma_same_map(a: TagSeq, m: Map<Seq<char>, Seq<char>>)
    requires
        unique_names(a),
        forall|k: Seq<char>| #[trigger] m.dom().contains(k) <==> has_name(a, k),
        forall|j: int| 0 <= j < a.len() ==> m[(#[trigger] a[j]).0] == a[j].1,
    ensures
        tag_map(a) == m,
{
    lemma_tag_map(a);
    assert forall|k: Seq<char>| #[trigger] m.dom().contains(k) implies tag_map(a)[k] == m[k] by {
        let j = choose|j: int| 0 <= j < a.len() && (#[trigger] a[j]).0 == k;
        assert(m[a[j].0] == a[j].1);
    }
    assert(tag_map(a).dom() =~= m.dom());
    assert(tag_map(a) =~= m);
}

/// Putting a tag in keeps names unique, and on the map it is an insertion.
pub proof fn lemma_with_tag(s: TagSeq, name: Seq<char>, value: Seq<char>)
    requires
        unique_names(s),
    ensures
        unique_names(with_tag(s, name, value)),
        tag_map(with_tag(s, name, value)) == tag_map(s).insert(name, value),
{
    let t = with_tag(s, name, value);
    let m = tag_map(s).insert(name, value);
    lemma_tag_map(s);
    assert forall|i: int, j: int| 0 <= i < j < t.len() implies (#[trigger] t[i]).0 != (
    #[trigger] t[j]).0 by {
        assert(s[i].0 == t[i].0);
        if j < s.len() {
            assert(s[j].0 == t[j].0);
        }
    }
    assert forall|k: Seq<char>| #[trigger] m.dom().contains(k) <==> has_name(t, k) by {
        if has_name(s, k) {
            let i = choose|i: int| 0 <= i < s.len() && (#[trigger] s[i]).0 == k;
            assert(t[i].0 == k);
        }
        if has_name(t, k) && k != name {
            let i = choose|i: int| 0 <= i < t.len() && (#[trigger] t[i]).0 == k;
            assert(s[i].0 == k);
        }
        if k == name && !has_name(s, name) {
            assert(t[s.len() as int].0 == name);
        }
    }
    assert forall|j: int| 0 <= j < t.len() implies m[(#[trigger] t[j]).0] == t[j].1 by {
        if j < s.len() {
            assert(tag_map(s)[s[j].0] == s[j].1);
            if s[j].0 == name {
                assert(has_name(s, name));
            }
        }
    }
    lemma_same_map(t, m);
}

/// Putting a list of tags in keeps names unique, and on the maps it is a union
/// in which the new tags win.
pub proof fn lemma_with_tags_map(s: TagSeq, more: TagSeq)
    requires
        unique_names(s),
    ensures
        unique_names(with_tags(s, more)),
        tag_map(with_tags(s, more)) == tag_map(s).union_prefer_right(tag_map(more)),
    decreases more.len(),
{
    if more.len() == 0 {
        assert(tag_map(s).union_prefer_right(tag_map(more)) =~= tag_map(s));
    } else {
        let front = more.drop_last();
        lemma_with_tags_map(s, front);
        lemma_with_tag(with_tags(s, front), more.last().0, more.last().1);
        assert(tag_map(s).union_prefer_right(tag_map(front)).insert(more.last().0, more.last().1)
            =~= tag_map(s).union_prefer_right(tag_map(more)));
    }
}

/// Putting one list in and then another is putting them in as one list.
pub proof fn lemma_with_tags_join(s: TagSeq, first: TagSeq, second: TagSeq)
    ensures
        with_tags(with_tags(s, first), second) == with_tags(s, first + second),
    decreases second.len(),
{
    if second.len() == 0 {
        assert(first + second =~= first);
    } else {
        let front = second.drop_last();
        lemma_with_tags_join(s, first, front);
        assert((first + second).drop_last() =~= first + front);
        assert((first + second).last() == second.last());
    }
}

/// The map of a list gives a name the text of its last entry, and holds no other
/// names.
pub proof fn lemma_last_entry_wins(s: TagSeq, i: int)
    requires
        0 <= i < s.len(),
        forall|j: int| i < j < s.len() ==> (#[trigger] s[j]).0 != s[i].0,
    ensures
        tag_map(s).dom().contains(s[i].0),
        tag_map(s)[s[i].0] == s[i].1,
    decreases s.len(),
{
    if i < s.len() - 1 {
        let front = s.drop_last();
        assert forall|j: int| i < j < front.len() implies (#[trigger] front[j]).0 != front[i].0 by {
            assert(front[j] == s[j]);
        }
        lemma_last_entry_wins(front, i);
        assert(s[s.len() - 1].0 != s[i].0);
    }
}

/// Names and texts, each name at most once, in the order in which the names
/// came.
#[derive(Debug)]
pub struct Tags {
    entries: Vec<(String, String)>,
}

impl View for Tags {
    type V = TagSeq;

    closed spec fn view(&self) -> TagSeq {
        tag_seq(self.entries@)
    }
}

impl Clone for Tags {
    fn clone(&self) -> (r: Self)
        ensures
            r@ == self@,
            unique_names(r@),
    {
        proof {
            use_type_invariant(self);
        }
        let mut copy: Vec<(String, String)> = Vec::new();
        let mut i: usize = 0;
        while i < self.entries.len()
            invariant
                i <= self.entries@.len(),
                copy@.len() == i,
                forall|j: int|
                    0 <= j < i ==> (#[trigger] copy@[j]).0@ == self.entries@[j].0@ && copy@[j].1@
                        == self.entries@[j].1@,
            decreases self.entries@.len() - i,
        {
            copy.push((self.entries[i].0.clone(), self.entries[i].1.clone()));
            i = i + 1;
        }
        assert(tag_seq(copy@) =~= tag_seq(self.entries@));
        Tags { entries: copy }
    }
}

impl Tags {
    #[verifier::type_invariant]
    spec fn well_formed(self) -> bool {
        unique_names(tag_seq(self.entries@))
    }

    /// No tags.
    pub fn new() -> (r: Tags)
        ensures
            r@ == TagSeq::empty(),
            unique_names(r@),
    {
        let r = Tags { entries: Vec::new() };
        assert(r@ =~= TagSeq::empty());
        r
    }

    /// The number of tags.
    pub fn len(&self) -> (r: usize)
        ensures
            r == self@.len(),
    {
        self.entries.len()
    }

    /// The name of the tag at place `i`.
    pub fn name(&self, i: usize) -> (r: &str)
        requires
            i < self@.len(),
        ensures
            r@ == self@[i as int].0,
    {
        self.entries[i].0.as_str()
    }

    /// The text of the tag at place `i`.
    pub fn value(&self, i: usize) -> (r: &str)
        requires
            i < self@.len(),
        ensures
            r@ == self@[i as int].1,
    {
        self.entries[i].1.as_str()
    }

    /// The text of a name, if it occurs.
    pub fn get(&self, name: &str) -> (r: Option<String>)
        ensures
            r is Some <==> tag_map(self@).dom().contains(name@),
            r matches Some(value) ==> value@ == tag_map(self@)[name@],
    {
        proof {
            use_type_invariant(self);
            lemma_tag_map(self@);
        }
        let mut i: usize = 0;
        while i < self.entries.len()
            invariant
                i <= self.entries@.len(),
                self@ == tag_seq(self.entries@),
                forall|j: int| 0 <= j < i ==> (#[trigger] self@[j]).0 != name@,
                unique_names(self@),
                forall|k: Seq<char>| #[trigger] tag_map(self@).dom().contains(k) <==> has_name(
                    self@,
                    k,
                ),
                forall|j: int|
                    0 <= j < self@.len() ==> tag_map(self@)[(#[trigger] self@[j]).0] == self@[j].1,
            decreases self.entries@.len() - i,
        {
            if same(self.entries[i].0.as_str(), name) {
                assert(self@[i as int].0 == name@);
                return Some(self.entries[i].1.clone());
            }
            assert(self@[i as int].0 != name@);
            i = i + 1;
        }
        None
    }

    /// Lets `name` stand for `value`.
    pub fn insert(&mut self, name: String, value: String)
        ensures
            final(self)@ == with_tag(old(self)@, name@, value@),
            tag_map(final(self)@) == tag_map(old(self)@).insert(name@, value@),
            unique_names(final(self)@),
    {
        proof {
            use_type_invariant(&*self);
            lemma_with_tag(self@, name@, value@);
        }
        let ghost before = self@;
        let mut entries: Vec<(String, String)> = Vec::new();
        let mut found: bool = false;
        let mut i: usize = 0;
        while i < self.entries.len()
            invariant
                i <= self.entries@.len(),
                before == self@,
                self@ == tag_seq(self.entries@),
                found == exists|j: int| 0 <= j < i && (#[trigger] before[j]).0 == name@,
                entries@.len() == i,
                forall|j: int|
                    0 <= j < i ==> ((#[trigger] entries@[j]).0@, entries@[j].1@) == if before[j].0
                        == name@ {
                        (name@, value@)
                    } else {
                        before[j]
                    },
            decreases self.entries@.len() - i,
        {
            let key = self.entries[i].0.clone();
            assert(before[i as int].0 == key@);
            if same(key.as_str(), name.as_str()) {
                entries.push((key, value.clone()));
                found = true;
            } else {
                entries.push((key, self.entries[i].1.clone()));
            }
            i = i + 1;
        }
        if !found {
            entries.push((name, value));
            assert(!has_name(before, name@));
            assert(tag_seq(entries@) =~= before.push((name@, value@)));
        }
        assert(tag_seq(entries@) =~= with_tag(before, name@, value@));
        self.entries = entries;
    }

    /// Puts each tag of `more` in, in order.
    pub fn extend(&mut self, more: &Tags)
        ensures
            final(self)@ == with_tags(old(self)@, more@),
            tag_map(final(self)@) == tag_map(old(self)@).union_prefer_right(tag_map(more@)),
            unique_names(final(self)@),
    {
        proof {
            use_type_invariant(&*self);
        }
        let ghost before = self@;
        let mut i: usize = 0;
        assert(more@.subrange(0, 0) =~= TagSeq::empty());
        while i < more.entries.len()
            invariant
                i <= more.entries@.len(),
                more@ == tag_seq(more.entries@),
                self@ == with_tags(before, more@.subrange(0, i as int)),
            decreases more.entries@.len() - i,
        {
            proof {
                let longer = more@.subrange(0, i + 1);
                assert(longer.drop_last() =~= more@.subrange(0, i as int));
                assert(longer.last() == more@[i as int]);
            }
            self.insert(more.entries[i].0.clone(), more.entries[i].1.clone());
            i = i + 1;
        }
        proof {
            assert(more@.subrange(0, more@.len() as int) =~= more@);
            use_type_invariant(more);
            lemma_with_tags_map(before, more@);
        }
    }
}

} // verus!
