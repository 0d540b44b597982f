use vstd::prelude::*;

verus! {

/// A section of a commit message.
#[derive(Clone, Copy, Debug, PartialEq, Eq, Structural)]
pub enum MessageSection {
    Title,
    Summary,
    TestPlan,
    Reviewers,
    ReviewedBy,
    PullRequest,
}

/// The text of the first entry of `entries` whose section is `key`, if any.
pub open spec fn first_value(entries: Seq<(MessageSection, String)>, key: MessageSection) -> Option<
    Seq<char>,
>
    decreases entries.len(),
{
    if entries.len() == 0 {
        None
    } else {
        match first_value(entries.drop_last(), key) {
            Some(v) => Some(v),
            None => if entries.last().0 == key {
                Some(entries.last().1@)
            } else {
                None
            },
        }
    }
}

/// No section occurs twice in `entries`.
pub open spec fn sections_distinct(entries: Seq<(MessageSection, String)>) -> bool {
    forall|i: int, j: int|
        0 <= i < j < entries.len() ==> #[trigger] entries[i].0 != #[trigger] entries[j].0
}

/// The sections of a commit message, each mapped to its text.
pub struct MessageSectionsMap {
    entries: Vec<(MessageSection, String)>,
}

impl View for MessageSectionsMap {
    type V = Map<MessageSection, Seq<char>>;

    closed spec fn view(&self) -> Map<MessageSection, Seq<char>> {
        Map::new(
            |k: MessageSection| first_value(self.entries@, k) is Some,
            |k: MessageSection| first_value(self.entries@, k)->0,
        )
    }
}

proof fn lemma_first_value_step(entries: Seq<(MessageSection, String)>, i: int, key: MessageSection)
    requires
        0 <= i < entries.len(),
        first_value(entries.take(i), key) is None,
    ensures
        first_value(entries.take(i + 1), key) == (if entries[i].0 == key {
            Some(entries[i].1@)
        } else {
            None::<Seq<char>>
        }),
{
    assert(entries.take(i + 1).drop_last() =~= entries.take(i));
}

proof fn lemma_first_value_extend(entries: Seq<(MessageSection, String)>, j: int, key: MessageSection)
    requires
        0 <= j <= entries.len(),
        first_value(entries.take(j), key) is Some,
    ensures
        first_value(entries, key) == first_value(entries.take(j), key),
    decreases entries.len(),
{
    if j == entries.len() {
        assert(entries.take(j) =~= entries);
    } else {
        assert(entries.drop_last().take(j) =~= entries.take(j));
        lemma_first_value_extend(entries.drop_last(), j, key);
    }
}

proof fn lemma_first_value_none(entries: Seq<(MessageSection, String)>, key: MessageSection)
    ensures
        first_value(entries, key) is None <==> forall|i: int|
            0 <= i < entries.len() ==> #[trigger] entries[i].0 != key,
    decreases entries.len(),
{
    if entries.len() > 0 {
        lemma_first_value_none(entries.drop_last(), key);
        if first_value(entries, key) is None {
            assert forall|i: int| 0 <= i < entries.len() implies #[trigger] entries[i].0 != key by {
                if i < entries.len() - 1 {
                    assert(entries.drop_last()[i] == entries[i]);
                }
            }
        } else if first_value(entries.drop_last(), key) is Some {
            let i = choose|i: int| 0 <= i < entries.drop_last().len() && #[trigger] entries.drop_last()[i].0 == key;
            assert(entries[i].0 == key);
        }
    }
}

proof fn lemma_first_value_push(
    entries: Seq<(MessageSection, String)>,
    e: (MessageSection, String),
    key: MessageSection,
)
    ensures
        first_value(entries.push(e), key) == (match first_value(entries, key) {
            Some(v) => Some(v),
            None => if e.0 == key {
                Some(e.1@)
            } else {
                None
            },
        }),
{
    assert(entries.push(e).drop_last() =~= entries);
}

proof fn lemma_first_value_update(
    entries: Seq<(MessageSection, String)>,
    i: int,
    value: String,
    key: MessageSection,
)
    requires
        0 <= i < entries.len(),
        first_value(entries.take(i), entries[i].0) is None,
    ensures
        first_value(entries.update(i, (entries[i].0, value)), key) == (if key == entries[i].0 {
            Some(value@)
        } else {
            first_value(entries, key)
        }),
    decreases entries.len(),
{
    let updated = entries.update(i, (entries[i].0, value));
    if i == entries.len() - 1 {
        assert(updated.drop_last() =~= entries.take(i));
        assert(entries.drop_last() =~= entries.take(i));
    } else {
        assert(updated.drop_last() =~= entries.drop_last().update(i, (entries[i].0, value)));
        assert(entries.drop_last().take(i) =~= entries.take(i));
        lemma_first_value_update(entries.drop_last(), i, value, key);
    }
}

impl MessageSectionsMap {
    #[verifier::type_invariant]
    spec fn inv(self) -> bool {
        sections_distinct(self.entries@)
    }

    /// An empty message.
    pub fn new() -> (m: Self)
        ensures
            m@ == Map::<MessageSection, Seq<char>>::empty(),
    {
        let m = MessageSectionsMap { entries: Vec::new() };
        assert(m@ =~= Map::<MessageSection, Seq<char>>::empty());
        m
    }

    /// Index of the entry that holds `key`, if any.
    fn find(entries: &Vec<(MessageSection, String)>, key: MessageSection) -> (r: Option<usize>)
        ensures
            match r {
                Some(i) => {
                    &&& i < entries@.len()
                    &&& entries@[i as int].0 == key
                    &&& first_value(entries@.take(i as int), key) is None
                    &&& first_value(entries@, key) == Some(entries@[i as int].1@)
                },
                None => first_value(entries@, key) is None,
            },
    {
        let mut i: usize = 0;
        while i < entries.len()
            invariant
                i <= entries@.len(),
                first_value(entries@.take(i as int), key) is None,
            decreases entries@.len() - i,
        {
            proof {
                lemma_first_value_step(entries@, i as int, key);
            }
            if entries[i].0 == key {
                proof {
                    lemma_first_value_extend(entries@, (i + 1) as int, key);
                }
                return Some(i);
            }
            i = i + 1;
        }
        assert(entries@.take(i as int) =~= entries@);
        None
    }

    /// The text of section `key`, if the message has that section.
    pub fn get(&self, key: &MessageSection) -> (r: Option<&String>)
        ensures
            match r {
                Some(s) => self@.contains_key(*key) && s@ == self@[*key],
                None => !self@.contains_key(*key),
            },
    {
        match Self::find(&self.entries, *key) {
            Some(i) => Some(&self.entries[i].1),
            None => None,
        }
    }

    /// Sets section `key` to `value`, and returns the text that it held before, if any.
    pub fn insert(&mut self, key: MessageSection, value: String) -> (r: Option<String>)
        ensures
            final(self)@ == old(self)@.insert(key, value@),
            match r {
                Some(s) => old(self)@.contains_key(key) && s@ == old(self)@[key],
                None => !old(self)@.contains_key(key),
            },
    {
        proof {
            use_type_invariant(&*self);
        }
        let ghost old_view = self@;
        let mut entries: Vec<(MessageSection, String)> = Vec::new();
        std::mem::swap(&mut entries, &mut self.entries);
        let ghost old_entries = entries@;
        assert(old_view == Map::new(
            |k: MessageSection| first_value(old_entries, k) is Some,
            |k: MessageSection| first_value(old_entries, k)->0,
        ));
        let r = match Self::find(&entries, key) {
            Some(i) => {
                let old_pair = entries.remove(i);
                entries.insert(i, (key, value));
                proof {
                    assert(entries@ =~= old_entries.update(i as int, (old_entries[i as int].0, value)));
                    assert forall|k: MessageSection| #[trigger]
                        first_value(entries@, k) == (if k == key {
                            Some(value@)
                        } else {
                            first_value(old_entries, k)
                        }) by {
                        lemma_first_value_update(old_entries, i as int, value, k);
                    }
                    assert forall|a: int, b: int|
                        0 <= a < b < entries@.len() implies #[trigger] entries@[a].0
                        != #[trigger] entries@[b].0 by {
                        assert(old_entries[a].0 != old_entries[b].0);
                    }
                }
                Some(old_pair.1)
            },
            None => {
                let ghost pushed = (key, value);
                entries.push((key, value));
                proof {
                    assert forall|k: MessageSection| #[trigger]
                        first_value(entries@, k) == (if k == key {
                            Some(value@)
                        } else {
                            first_value(old_entries, k)
                        }) by {
                        lemma_first_value_push(old_entries, pushed, k);
                    }
                    lemma_first_value_none(old_entries, key);
                    assert forall|a: int, b: int|
                        0 <= a < b < entries@.len() implies #[trigger] entries@[a].0
                        != #[trigger] entries@[b].0 by {
                        if b == entries@.len() - 1 {
                            assert(old_entries[a].0 != key);
                        } else {
                            assert(old_entries[a].0 != old_entries[b].0);
                        }
                    }
                }
                None
            },
        };
        self.entries = entries;
        assert(self@ =~= old_view.insert(key, value@));
        r
    }
}


/// Read after write: once `insert(key, value)` has turned `before` into
/// `after` (its `ensures`), `get(key)` on `after` gives `value`, and `get` of
/// any other section gives what it gave on `before`.
pub proof fn law_get_after_insert(
    before: MessageSectionsMap,
    after: MessageSectionsMap,
    key: MessageSection,
    value: String,
    other: MessageSection,
)
    requires
        after@ == before@.insert(key, value@),
        other != key,
    ensures
        after@.contains_key(key),
        after@[key] == value@,
        after@.contains_key(other) == before@.contains_key(other),
        before@.contains_key(other) ==> after@[other] == before@[other],
{
}

} // verus!
