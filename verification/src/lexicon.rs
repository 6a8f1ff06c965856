//! Lexicon entries and the lexicon, a map from keys to entries that also
//! remembers its keys in insertion order.
use vstd::prelude::*;
use vstd::hash_map::StringHashMap;
use crate::normalize::{key_variants, spec_key_variants};

verus! {

/// What a lexicon entry holds, as values.
pub struct EntryView {
    pub term: Seq<char>,
    pub ipa: Seq<char>,
    pub zh: Seq<char>,
    pub hard: bool,
}

/// A term with its pronunciation and its meaning; `hard` marks terms that
/// are always annotated.
pub struct LexiconEntry {
    pub term: String,
    pub ipa: String,
    pub zh: String,
    pub hard: bool,
}

pub open spec fn entry_view(e: LexiconEntry) -> EntryView {
    EntryView { term: e.term@, ipa: e.ipa@, zh: e.zh@, hard: e.hard }
}

impl LexiconEntry {
    /// A copy of the entry.
    pub fn duplicate(&self) -> (r: LexiconEntry)
        ensures
            entry_view(r) == entry_view(*self),
    {
        LexiconEntry {
            term: self.term.clone(),
            ipa: self.ipa.clone(),
            zh: self.zh.clone(),
            hard: self.hard,
        }
    }
}

/// A map from keys to entries, with its keys in the order of first insertion.
pub struct Lexicon {
    map: StringHashMap<LexiconEntry>,
    keys: Vec<String>,
}

impl Lexicon {
    /// The entries, by key.
    pub closed spec fn view_map(&self) -> Map<Seq<char>, EntryView> {
        Map::new(|k: Seq<char>| self.map@.contains_key(k), |k: Seq<char>| entry_view(self.map@[k]))
    }

    /// The keys, in the order in which they were first inserted.
    pub closed spec fn key_order(&self) -> Seq<Seq<char>> {
        self.keys.deep_view()
    }

    /// The keys are the domain of the map, each listed once.
    pub closed spec fn wf(&self) -> bool {
        &&& self.keys.deep_view().no_duplicates()
        &&& forall|k: Seq<char>| self.map@.contains_key(k) <==> self.keys.deep_view().contains(k)
    }

    pub proof fn lemma_keys(&self)
        requires
            self.wf(),
        ensures
            self.key_order().no_duplicates(),
            forall|k: Seq<char>| #[trigger] self.view_map().contains_key(k) <==> self.key_order().contains(k),
    {
    }

    /// An empty lexicon.
    pub fn new() -> (r: Lexicon)
        ensures
            r.wf(),
            r.view_map() == Map::<Seq<char>, EntryView>::empty(),
            r.key_order() == Seq::<Seq<char>>::empty(),
    {
        let r = Lexicon { map: StringHashMap::new(), keys: Vec::new() };
        assert(r.keys.deep_view() =~= Seq::<Seq<char>>::empty());
        assert(r.view_map() =~= Map::<Seq<char>, EntryView>::empty());
        r
    }

    /// The number of keys.
    pub fn len(&self) -> (n: usize)
        requires
            self.wf(),
        ensures
            n == self.key_order().len(),
    {
        self.keys.len()
    }

    /// The key at position `i` of the key order.
    pub fn key_at(&self, i: usize) -> (k: &String)
        requires
            i < self.key_order().len(),
        ensures
            k@ == self.key_order()[i as int],
    {
        &self.keys[i]
    }

    /// Stores `entry` under `key`, replacing what was there.
    pub fn insert(&mut self, key: String, entry: LexiconEntry)
        requires
            old(self).wf(),
        ensures
            final(self).wf(),
            final(self).view_map() == old(self).view_map().insert(key@, entry_view(entry)),
            final(self).key_order() == if old(self).view_map().contains_key(key@) {
                old(self).key_order()
            } else {
                old(self).key_order().push(key@)
            },
    {
        let ghost old_map = self.view_map();
        let ghost old_raw = self.map@;
        let ghost before = self.keys.deep_view();
        if !self.map.contains_key(key.as_str()) {
            self.keys.push(key.clone());
            assert(self.keys.deep_view() =~= before.push(key@));
            assert(!before.contains(key@));
            assert forall|a: int, b: int|
                0 <= a < b < self.keys.deep_view().len() implies self.keys.deep_view()[a]
                != self.keys.deep_view()[b] by {
                if b == before.len() {
                    assert(before.contains(before[a]));
                }
            }
        }
        self.map.insert(key, entry);
        assert forall|k: Seq<char>| self.map@.contains_key(k) <==> self.keys.deep_view().contains(k) by {
            if k == key@ {
                if !old_raw.contains_key(key@) {
                    assert(self.keys.deep_view()[before.len() as int] == key@);
                } else {
                    assert(before.contains(key@));
                }
            } else {
                if self.keys.deep_view().contains(k) {
                    let idx = choose|idx: int| 0 <= idx < self.keys.deep_view().len() && self.keys.deep_view()[idx] == k;
                    if idx < before.len() {
                        assert(before[idx] == k);
                        assert(before.contains(k));
                    }
                }
                if before.contains(k) {
                    let idx = choose|idx: int| 0 <= idx < before.len() && before[idx] == k;
                    assert(self.keys.deep_view()[idx] == k);
                }
            }
        }
        assert(self.view_map() =~= old_map.insert(key@, entry_view(entry)));
    }

    /// A copy of the lexicon, with every meaning emptied when `clear_meanings`
    /// is set.
    pub fn copy(&self, clear_meanings: bool) -> (r: Lexicon)
        requires
            self.wf(),
        ensures
            r.wf(),
            r.key_order() == self.key_order(),
            r.view_map() == (if clear_meanings {
                without_meanings(self.view_map())
            } else {
                self.view_map()
            }),
    {
        let ghost target = if clear_meanings {
            without_meanings(self.view_map())
        } else {
            self.view_map()
        };
        let mut r = Lexicon::new();
        let mut i: usize = 0;
        proof {
            self.lemma_keys();
        }
        while i < self.keys.len()
            invariant
                i <= self.keys.len(),
                self.wf(),
                r.wf(),
                self.key_order().no_duplicates(),
                forall|k: Seq<char>| #[trigger] self.view_map().contains_key(k) <==> self.key_order().contains(k),
                target == (if clear_meanings {
                    without_meanings(self.view_map())
                } else {
                    self.view_map()
                }),
                r.key_order() == self.key_order().take(i as int),
                r.view_map() == target.restrict(self.key_order().take(i as int).to_set()),
            decreases self.keys.len() - i,
        {
            let key = &self.keys[i];
            assert(self.key_order()[i as int] == key@);
            assert(self.key_order().contains(key@));
            let entry = match self.map.get(key.as_str()) {
                Some(e) => e,
                None => {
                    assert(false);
                    return r;
                },
            };
            let mut copy = entry.duplicate();
            if clear_meanings {
                copy.zh = String::new();
            }
            assert(entry_view(copy) == target[key@]);
            proof {
                r.lemma_keys();
                assert(!r.key_order().contains(key@)) by {
                    if r.key_order().contains(key@) {
                        let j = choose|j: int| 0 <= j < i && r.key_order()[j] == key@;
                        assert(self.key_order()[j] == self.key_order()[i as int]);
                    }
                }
            }
            r.insert(key.clone(), copy);
            assert(self.key_order().take(i + 1) =~= self.key_order().take(i as int).push(key@));
            assert(r.view_map() =~= target.restrict(self.key_order().take(i + 1).to_set()));
            i += 1;
        }
        assert(self.key_order().take(self.keys.len() as int) =~= self.key_order());
        assert(r.view_map() =~= target);
        r
    }

    /// The entry stored under `key`, if any.
    pub fn get(&self, key: &str) -> (r: Option<&LexiconEntry>)
        ensures
            r matches Some(e) ==> self.view_map().contains_key(key@) && entry_view(*e)
                == self.view_map()[key@],
            r is None ==> !self.view_map().contains_key(key@),
    {
        self.map.get(key)
    }
}

/// Stores the entry under each spelling of its term.
pub open spec fn spec_add_entry(lex: Map<Seq<char>, EntryView>, entry: EntryView) -> Map<
    Seq<char>,
    EntryView,
> {
    add_under_keys(lex, spec_key_variants(entry.term), entry)
}

/// Stores `entry` under each of `keys`.
pub open spec fn add_under_keys(
    lex: Map<Seq<char>, EntryView>,
    keys: Seq<Seq<char>>,
    entry: EntryView,
) -> Map<Seq<char>, EntryView>
    decreases keys.len(),
{
    if keys.len() == 0 {
        lex
    } else {
        add_under_keys(lex, keys.drop_last(), entry).insert(keys.last(), entry)
    }
}

/// The keys after storing under each of `keys`.
pub open spec fn add_keys(order: Seq<Seq<char>>, keys: Seq<Seq<char>>) -> Seq<Seq<char>>
    decreases keys.len(),
{
    if keys.len() == 0 {
        order
    } else {
        let o = add_keys(order, keys.drop_last());
        if o.contains(keys.last()) {
            o
        } else {
            o.push(keys.last())
        }
    }
}

/// Stores the entry in the lexicon under each spelling of its term.
pub fn add_entry(lexicon: &mut Lexicon, entry: LexiconEntry)
    requires
        old(lexicon).wf(),
    ensures
        final(lexicon).wf(),
        final(lexicon).view_map() == spec_add_entry(old(lexicon).view_map(), entry_view(entry)),
        final(lexicon).key_order() == add_keys(
            old(lexicon).key_order(),
            spec_key_variants(entry.term@),
        ),
{
    let keys = key_variants(entry.term.as_str());
    let ghost e = entry_view(entry);
    let mut i: usize = 0;
    while i < keys.len()
        invariant
            i <= keys.len(),
            lexicon.wf(),
            keys.deep_view() == spec_key_variants(entry.term@),
            e == entry_view(entry),
            lexicon.view_map() == add_under_keys(
                old(lexicon).view_map(),
                keys.deep_view().take(i as int),
                e,
            ),
            lexicon.key_order() == add_keys(old(lexicon).key_order(), keys.deep_view().take(i as int)),
        decreases keys.len() - i,
    {
        assert(keys.deep_view().take(i + 1).drop_last() =~= keys.deep_view().take(i as int));
        assert(keys.deep_view()[i as int] == keys@[i as int]@);
        let copy = entry.duplicate();
        proof {
            lexicon.lemma_keys();
        }
        lexicon.insert(keys[i].clone(), copy);
        i += 1;
    }
    assert(keys.deep_view().take(keys.len() as int) =~= keys.deep_view());
}

/// The lexicon with every meaning emptied.
pub open spec fn without_meanings(lex: Map<Seq<char>, EntryView>) -> Map<Seq<char>, EntryView> {
    lex.map_values(|e: EntryView| EntryView { zh: seq![], ..e })
}

} // verus!
