use vstd::prelude::*;

verus! {

/// The identity of a task: the function and the argument values.
#[derive(Debug)]
pub struct TaskKey {
    pub function: u64,
    pub args: Vec<u64>,
}

impl View for TaskKey {
    type V = (u64, Seq<u64>);

    open spec fn view(&self) -> (u64, Seq<u64>) {
        (self.function, self.args@)
    }
}

impl TaskKey {
    /// Whether two keys name the same task.
    pub fn same_as(&self, other: &TaskKey) -> (r: bool)
        ensures
            r == (self@ == other@),
    {
        if self.function != other.function || self.args.len() != other.args.len() {
            return false;
        }
        let mut i: usize = 0;
        while i < self.args.len()
            invariant
                self.args@.len() == other.args@.len(),
                i <= self.args@.len(),
                self.args@.subrange(0, i as int) == other.args@.subrange(0, i as int),
            decreases self.args@.len() - i,
        {
            if self.args[i] != other.args[i] {
                return false;
            }
            assert(self.args@.subrange(0, i + 1) =~= self.args@.subrange(0, i as int).push(self.args@[i as int]));
            assert(other.args@.subrange(0, i + 1) =~= other.args@.subrange(0, i as int).push(other.args@[i as int]));
            i = i + 1;
        }
        assert(self.args@ =~= self.args@.subrange(0, i as int));
        assert(other.args@ =~= other.args@.subrange(0, i as int));
        true
    }
}

/// The cache of task results: one value cell per task key.
#[derive(Debug)]
pub struct TaskCache {
    keys: Vec<TaskKey>,
    values: Vec<Vec<u8>>,
}

/// The position of `key` among `keys`, if it is there.
pub open spec fn index_of(keys: Seq<(u64, Seq<u64>)>, key: (u64, Seq<u64>)) -> Option<nat>
    decreases keys.len(),
{
    if keys.len() == 0 {
        None
    } else if keys.last() == key {
        Some((keys.len() - 1) as nat)
    } else {
        index_of(keys.drop_last(), key)
    }
}

/// The state of a cache after spawning the task `key` whose body would
/// produce `value`, with the handle handed out: an existing cell is reused
/// and the new value ignored; otherwise a cell is added.
pub open spec fn spawned(
    keys: Seq<(u64, Seq<u64>)>,
    values: Seq<Seq<u8>>,
    key: (u64, Seq<u64>),
    value: Seq<u8>,
) -> (Seq<(u64, Seq<u64>)>, Seq<Seq<u8>>, nat) {
    match index_of(keys, key) {
        Some(i) => (keys, values, i),
        None => (keys.push(key), values.push(value), keys.len()),
    }
}

proof fn lemma_index_of_push(keys: Seq<(u64, Seq<u64>)>, key: (u64, Seq<u64>))
    ensures
        index_of(keys.push(key), key) == Some(keys.len()),
{
    assert(keys.push(key).drop_last() =~= keys);
}

proof fn lemma_index_of_bound(keys: Seq<(u64, Seq<u64>)>, key: (u64, Seq<u64>))
    ensures
        index_of(keys, key) matches Some(i) ==> i < keys.len() && keys[i as int] == key,
    decreases keys.len(),
{
    if keys.len() > 0 && keys.last() != key {
        lemma_index_of_bound(keys.drop_last(), key);
    }
}

/// Spawning the same task twice hands out the same cell, and the second
/// spawn changes nothing: awaiting either handle gives the same value.
pub proof fn lemma_memoization(
    keys: Seq<(u64, Seq<u64>)>,
    values: Seq<Seq<u8>>,
    key: (u64, Seq<u64>),
    first: Seq<u8>,
    second: Seq<u8>,
)
    requires
        keys.len() == values.len(),
    ensures
        ({
            let (k1, v1, h1) = spawned(keys, values, key, first);
            let (k2, v2, h2) = spawned(k1, v1, key, second);
            &&& h1 == h2
            &&& k2 == k1
            &&& v2 == v1
            &&& h1 < v1.len()
            &&& v2[h2 as int] == v1[h1 as int]
        }),
{
    lemma_index_of_bound(keys, key);
    if index_of(keys, key) is None {
        lemma_index_of_push(keys, key);
    }
}

impl TaskCache {
    pub closed spec fn keys(&self) -> Seq<(u64, Seq<u64>)> {
        self.keys@.map_values(|k: TaskKey| k@)
    }

    pub closed spec fn values(&self) -> Seq<Seq<u8>> {
        self.values@.map_values(|v: Vec<u8>| v@)
    }

    pub open spec fn wf(&self) -> bool {
        self.keys().len() == self.values().len()
    }

    /// An empty cache.
    pub fn new() -> (r: Self)
        ensures
            r.wf(),
            r.keys().len() == 0,
    {
        TaskCache { keys: Vec::new(), values: Vec::new() }
    }

    /// The handle of the task `key`: the existing one where the task was
    /// spawned before, otherwise a new cell holding `value`.
    pub fn spawn(&mut self, key: TaskKey, value: Vec<u8>) -> (r: usize)
        requires
            old(self).wf(),
        ensures
            final(self).wf(),
            (final(self).keys(), final(self).values(), r as nat) == spawned(
                old(self).keys(),
                old(self).values(),
                key@,
                value@,
            ),
    {
        let mut i: usize = self.keys.len();
        assert(self.keys().subrange(0, i as int) =~= self.keys());
        while i > 0
            invariant
                i <= self.keys@.len(),
                self.keys@.len() == self.values@.len(),
                index_of(self.keys(), key@) == index_of(self.keys().subrange(0, i as int), key@),
            decreases i,
        {
            let ghost pre = self.keys().subrange(0, i as int);
            assert(pre.drop_last() =~= self.keys().subrange(0, i - 1));
            if self.keys[i - 1].same_as(&key) {
                return i - 1;
            }
            i = i - 1;
        }
        assert(self.keys().subrange(0, 0) =~= Seq::<(u64, Seq<u64>)>::empty());
        let ghost ok = self.keys();
        let ghost ov = self.values();
        let n = self.keys.len();
        self.keys.push(key);
        self.values.push(value);
        assert(self.keys() =~= ok.push(key@));
        assert(self.values() =~= ov.push(value@));
        n
    }

    /// The value in the cell of a handle.
    pub fn get(&self, handle: usize) -> (r: &Vec<u8>)
        requires
            self.wf(),
            handle < self.keys().len(),
        ensures
            r@ == self.values()[handle as int],
    {
        &self.values[handle]
    }
}

} // verus!
