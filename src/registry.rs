//! The registry of tool names: which provider hosts each tool, under which id.
//! A tool's key is the id its provider reports; when two providers report the
//! same id, the one registered last wins.
use vstd::prelude::*;

verus! {

/// One registration: `key` is served by `provider` as its tool `tool_id`.
pub struct RegistryEntry {
    pub key: String,
    pub provider: String,
    pub tool_id: String,
}

/// The (provider, tool id) pair that a list of registrations gives `key`: the
/// one of the latest registration of `key`.
pub open spec fn lookup(entries: Seq<RegistryEntry>, key: Seq<char>) -> Option<
    (Seq<char>, Seq<char>),
>
    decreases entries.len(),
{
    if entries.len() == 0 {
        None
    } else if entries.last().key@ == key {
        Some((entries.last().provider@, entries.last().tool_id@))
    } else {
        lookup(entries.drop_last(), key)
    }
}

/// The mapping `m` after `provider` registers the tools `ids`, in order: each
/// id becomes a key of its own, and replaces what the key held before.
pub open spec fn registered(
    m: Map<Seq<char>, (Seq<char>, Seq<char>)>,
    provider: Seq<char>,
    ids: Seq<Seq<char>>,
) -> Map<Seq<char>, (Seq<char>, Seq<char>)>
    decreases ids.len(),
{
    if ids.len() == 0 {
        m
    } else {
        registered(m, provider, ids.drop_last()).insert(ids.last(), (provider, ids.last()))
    }
}

/// Registering `ids` for `provider` gives each of them to `provider`, under
/// the same id, and leaves every other key as it was.
pub proof fn lemma_registered(
    m: Map<Seq<char>, (Seq<char>, Seq<char>)>,
    provider: Seq<char>,
    ids: Seq<Seq<char>>,
    key: Seq<char>,
)
    ensures
        ids.contains(key) ==> registered(m, provider, ids).contains_key(key) && registered(
            m,
            provider,
            ids,
        )[key] == (provider, key),
        !ids.contains(key) ==> registered(m, provider, ids).contains_key(key) == m.contains_key(
            key,
        ) && registered(m, provider, ids)[key] == m[key],
    decreases ids.len(),
{
    if ids.len() > 0 {
        lemma_registered(m, provider, ids.drop_last(), key);
        if key != ids.last() {
            assert(ids.contains(key) ==> ids.drop_last().contains(key)) by {
                if ids.contains(key) {
                    let i = choose|i: int| 0 <= i < ids.len() && ids[i] == key;
                    assert(ids.drop_last()[i] == key);
                }
            }
            assert(ids.drop_last().contains(key) ==> ids.contains(key)) by {
                if ids.drop_last().contains(key) {
                    let i = choose|i: int| 0 <= i < ids.len() - 1 && ids.drop_last()[i] == key;
                    assert(ids[i] == key);
                }
            }
        } else {
            assert(ids[ids.len() - 1] == key);
        }
    }
}

/// The mapping from tool key to (provider, tool id).
pub struct ToolRegistry {
    entries: Vec<RegistryEntry>,
}

impl View for ToolRegistry {
    type V = Map<Seq<char>, (Seq<char>, Seq<char>)>;

    closed spec fn view(&self) -> Self::V {
        Map::new(
            |k: Seq<char>| lookup(self.entries@, k) is Some,
            |k: Seq<char>| lookup(self.entries@, k)->Some_0,
        )
    }
}

impl ToolRegistry {
    /// A registry that holds no tool.
    pub fn new() -> (r: Self)
        ensures
            r@ == Map::<Seq<char>, (Seq<char>, Seq<char>)>::empty(),
    {
        let r = ToolRegistry { entries: Vec::new() };
        assert(r@ =~= Map::<Seq<char>, (Seq<char>, Seq<char>)>::empty());
        r
    }

    /// Registers each of `tool_ids` as served by `provider`; a key that is
    /// already there is taken over by `provider`.
    pub fn register(&mut self, provider: &String, tool_ids: &Vec<String>)
        ensures
            final(self)@ == registered(old(self)@, provider@, tool_ids@.map_values(|s: String| s@)),
    {
        let ghost ids = tool_ids@.map_values(|s: String| s@);
        let mut i: usize = 0;
        while i < tool_ids.len()
            invariant
                i <= tool_ids@.len(),
                ids == tool_ids@.map_values(|s: String| s@),
                self@ == registered(old(self)@, provider@, ids.take(i as int)),
            decreases tool_ids@.len() - i,
        {
            let ghost before = self.entries@;
            let entry = RegistryEntry {
                key: tool_ids[i].clone(),
                provider: provider.clone(),
                tool_id: tool_ids[i].clone(),
            };
            self.entries.push(entry);
            assert(self.entries@.drop_last() == before);
            assert(ids.take(i as int + 1).drop_last() == ids.take(i as int));
            assert(self@ =~= registered(old(self)@, provider@, ids.take(i as int)).insert(
                ids[i as int],
                (provider@, ids[i as int]),
            ));
            i = i + 1;
        }
        assert(ids.take(tool_ids@.len() as int) == ids);
    }

    /// The provider and tool id registered under `key`, if any.
    pub fn resolve(&self, key: &str) -> (r: Option<(String, String)>)
        ensures
            match r {
                Some((provider, tool_id)) => self@.contains_key(key@) && self@[key@] == (
                    provider@,
                    tool_id@,
                ),
                None => !self@.contains_key(key@),
            },
    {
        let wanted = key.to_owned();
        let mut i: usize = self.entries.len();
        assert(self.entries@.take(i as int) == self.entries@);
        while i > 0
            invariant
                i <= self.entries@.len(),
                wanted@ == key@,
                lookup(self.entries@, key@) == lookup(self.entries@.take(i as int), key@),
            decreases i,
        {
            assert(self.entries@.take(i as int).drop_last() == self.entries@.take(i as int - 1));
            if self.entries[i - 1].key == wanted {
                assert(self.entries@.take(i as int).last() == self.entries@[i - 1]);
                return Some((self.entries[i - 1].provider.clone(), self.entries[i - 1].tool_id.clone()));
            }
            i = i - 1;
        }
        None
    }
}

} // verus!
