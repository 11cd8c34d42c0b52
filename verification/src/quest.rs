//! Quest and achievement definitions: which tasks each one requires and
//! which rewards it grants. They are configuration: built once, then only
//! read.

use vstd::prelude::*;
use crate::felt::Felt;

verus! {

/// A reward that a definition grants: the task that marks it, the contract
/// that mints it and its tier.
#[derive(Clone, Copy, Debug)]
pub struct RewardGrant {
    pub task_id: u32,
    pub nft_contract: Felt,
    pub level: u32,
}

/// Why a definition was refused.
#[derive(Clone, Copy, Debug, PartialEq, Eq, Structural)]
pub enum DefinitionError {
    /// It requires no task at all.
    NoRequiredTasks,
}

/// A sequence without its repetitions: of each value the first occurrence
/// stays, in its place among the others.
pub open spec fn dedup(ids: Seq<u32>) -> Seq<u32>
    decreases ids.len(),
{
    if ids.len() == 0 {
        Seq::empty()
    } else {
        let front = dedup(ids.drop_last());
        if front.contains(ids.last()) {
            front
        } else {
            front.push(ids.last())
        }
    }
}

/// Nothing occurs twice in the sequence.
pub open spec fn distinct(ids: Seq<u32>) -> bool {
    forall|i: int, j: int| 0 <= i < j < ids.len() ==> ids[i] != ids[j]
}

/// `dedup` keeps every value, adds none and repeats none.
pub proof fn lemma_dedup(ids: Seq<u32>)
    ensures
        distinct(dedup(ids)),
        forall|t: u32| dedup(ids).contains(t) <==> ids.contains(t),
        dedup(ids).len() <= ids.len(),
        ids.len() > 0 ==> dedup(ids).len() > 0,
    decreases ids.len(),
{
    if ids.len() > 0 {
        let front_ids = ids.drop_last();
        let front = dedup(front_ids);
        lemma_dedup(front_ids);
        assert forall|t: u32| dedup(ids).contains(t) <==> ids.contains(t) by {
            if ids.contains(t) {
                let i = choose|i: int| 0 <= i < ids.len() && ids[i] == t;
                if i < front_ids.len() {
                    assert(front_ids[i] == t);
                    assert(front_ids.contains(t));
                    assert(front.contains(t));
                    let j = choose|j: int| 0 <= j < front.len() && front[j] == t;
                    assert(dedup(ids)[j] == t);
                } else {
                    if !front.contains(t) {
                        assert(dedup(ids)[front.len() as int] == t);
                    }
                }
            }
            if dedup(ids).contains(t) {
                let j = choose|j: int| 0 <= j < dedup(ids).len() && dedup(ids)[j] == t;
                if j < front.len() {
                    assert(front[j] == t);
                    assert(front_ids.contains(t));
                    let i = choose|i: int| 0 <= i < front_ids.len() && front_ids[i] == t;
                    assert(ids[i] == t);
                } else {
                    assert(ids[ids.len() - 1] == t);
                }
            }
        }
    }
}

/// A quest or an achievement: an identifier, the tasks that it requires and
/// the rewards that it grants. It requires at least one task and names none
/// twice.
pub struct QuestDefinition {
    id: u32,
    task_ids: Vec<u32>,
    rewards: Vec<RewardGrant>,
}

/// An achievement is defined as a quest is.
pub type AchievementDefinition = QuestDefinition;

impl QuestDefinition {
    #[verifier::type_invariant]
    spec fn well_formed(self) -> bool {
        &&& self.task_ids@.len() > 0
        &&& distinct(self.task_ids@)
    }

    /// The identifier.
    pub closed spec fn id(self) -> u32 {
        self.id
    }

    /// The required tasks, each once.
    pub closed spec fn task_ids(self) -> Seq<u32> {
        self.task_ids@
    }

    /// The required tasks as a set.
    pub open spec fn required(self) -> Set<u32> {
        self.task_ids().to_set()
    }

    /// The rewards, in the order in which they are granted.
    pub closed spec fn rewards(self) -> Seq<RewardGrant> {
        self.rewards@
    }

    /// A definition with the given identifier, required tasks and rewards.
    /// Tasks named more than once count once. One that requires no task is
    /// refused.
    pub fn new(id: u32, task_ids: Vec<u32>, rewards: Vec<RewardGrant>) -> (made: Result<
        QuestDefinition,
        DefinitionError,
    >)
        ensures
            made is Ok <==> task_ids@.len() > 0,
            made matches Ok(definition) ==> {
                &&& definition.id() == id
                &&& definition.task_ids() == dedup(task_ids@)
                &&& definition.required() == task_ids@.to_set()
                &&& definition.rewards() == rewards@
            },
    {
        if task_ids.len() == 0 {
            return Err(DefinitionError::NoRequiredTasks);
        }
        let mut kept: Vec<u32> = Vec::new();
        let mut i: usize = 0;
        while i < task_ids.len()
            invariant
                i <= task_ids@.len(),
                kept@ == dedup(task_ids@.take(i as int)),
            decreases task_ids@.len() - i,
        {
            let id_i = task_ids[i];
            let mut seen = false;
            let mut j: usize = 0;
            while j < kept.len()
                invariant
                    j <= kept@.len(),
                    seen == kept@.take(j as int).contains(id_i),
                decreases kept@.len() - j,
            {
                if kept[j] == id_i {
                    seen = true;
                }
                proof {
                    let before = kept@.take(j as int);
                    let after = kept@.take(j + 1);
                    assert(after =~= before.push(kept@[j as int]));
                    if before.contains(id_i) {
                        let k = choose|k: int| 0 <= k < before.len() && before[k] == id_i;
                        assert(after[k] == id_i);
                    }
                    if kept@[j as int] == id_i {
                        assert(after[j as int] == id_i);
                    }
                }
                j += 1;
            }
            proof {
                assert(kept@.take(kept@.len() as int) =~= kept@);
                assert(task_ids@.take(i + 1).drop_last() =~= task_ids@.take(i as int));
            }
            if !seen {
                kept.push(id_i);
            }
            i += 1;
        }
        proof {
            assert(task_ids@.take(task_ids@.len() as int) =~= task_ids@);
            lemma_dedup(task_ids@);
            assert(kept@.to_set() =~= task_ids@.to_set());
        }
        Ok(QuestDefinition { id, task_ids: kept, rewards })
    }

    /// The identifier.
    pub fn get_id(&self) -> (id: u32)
        ensures
            id == self.id(),
    {
        self.id
    }

    /// The required tasks: at least one, none twice.
    pub fn required_tasks(&self) -> (task_ids: &Vec<u32>)
        ensures
            task_ids@ == self.task_ids(),
            task_ids@.len() > 0,
            distinct(task_ids@),
    {
        proof {
            use_type_invariant(self);
        }
        &self.task_ids
    }

    /// The rewards.
    pub fn granted_rewards(&self) -> (rewards: &Vec<RewardGrant>)
        ensures
            rewards@ == self.rewards(),
    {
        &self.rewards
    }
}

/// The first definition with the identifier, if there is one.
pub open spec fn lookup(definitions: Seq<QuestDefinition>, id: u32) -> Option<QuestDefinition>
    decreases definitions.len(),
{
    if definitions.len() == 0 {
        None
    } else if definitions.first().id() == id {
        Some(definitions.first())
    } else {
        lookup(definitions.drop_first(), id)
    }
}

/// A definition is found exactly if some definition has the identifier, and
/// the one found has it.
pub proof fn lemma_lookup(definitions: Seq<QuestDefinition>, id: u32)
    ensures
        lookup(definitions, id) is Some <==> exists|i: int|
            0 <= i < definitions.len() && (#[trigger] definitions[i]).id() == id,
        lookup(definitions, id) matches Some(d) ==> d.id() == id && definitions.contains(d),
    decreases definitions.len(),
{
    if definitions.len() > 0 {
        let rest = definitions.drop_first();
        lemma_lookup(rest, id);
        if definitions.first().id() == id {
            assert(definitions[0].id() == id);
        } else {
            if lookup(rest, id) is Some {
                let i = choose|i: int| 0 <= i < rest.len() && (#[trigger] rest[i]).id() == id;
                assert(definitions[i + 1].id() == id);
                let d = lookup(rest, id)->Some_0;
                let k = choose|k: int| 0 <= k < rest.len() && rest[k] == d;
                assert(definitions[k + 1] == d);
            }
            if exists|i: int| 0 <= i < definitions.len() && (#[trigger] definitions[i]).id() == id {
                let i = choose|i: int|
                    0 <= i < definitions.len() && (#[trigger] definitions[i]).id() == id;
                assert(rest[i - 1].id() == id);
            }
        }
    }
}

/// What a deployment is configured with: the key that signs rewards and the
/// definitions. It is built at startup and handed on by reference.
pub struct QuestConfig {
    private_key: Felt,
    definitions: Vec<QuestDefinition>,
}

impl QuestConfig {
    /// The signing key.
    pub closed spec fn private_key(self) -> Felt {
        self.private_key
    }

    /// The definitions, in the order in which they are searched.
    pub closed spec fn definitions(self) -> Seq<QuestDefinition> {
        self.definitions@
    }

    /// A configuration with the given key and definitions.
    pub fn new(private_key: Felt, definitions: Vec<QuestDefinition>) -> (config: QuestConfig)
        ensures
            config.private_key() == private_key,
            config.definitions() == definitions@,
    {
        QuestConfig { private_key, definitions }
    }

    /// The signing key.
    pub fn signing_key(&self) -> (key: &Felt)
        ensures
            *key == self.private_key(),
    {
        &self.private_key
    }

    /// The first definition with the identifier, if there is one.
    pub fn find(&self, id: u32) -> (found: Option<&QuestDefinition>)
        ensures
            found == match lookup(self.definitions(), id) {
                Some(d) => Some(&d),
                None => None,
            },
    {
        let mut i: usize = 0;
        assert(self.definitions@.skip(0) =~= self.definitions@);
        while i < self.definitions.len()
            invariant
                i <= self.definitions@.len(),
                lookup(self.definitions@, id) == lookup(self.definitions@.skip(i as int), id),
            decreases self.definitions@.len() - i,
        {
            proof {
                assert(self.definitions@.skip(i as int).first() == self.definitions@[i as int]);
                assert(self.definitions@.skip(i as int).drop_first() =~= self.definitions@.skip(
                    i + 1,
                ));
            }
            if self.definitions[i].get_id() == id {
                return Some(&self.definitions[i]);
            }
            i += 1;
        }
        None
    }
}

} // verus!
