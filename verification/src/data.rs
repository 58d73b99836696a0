//! The snapshot taken at each sampling tick, and the record types it is made of.
//!
//! Every counter is an unsigned integer. Sizes are in bytes, CPU times in
//! microseconds, and CPU usage in thousandths of a percent.

use vstd::prelude::*;

verus! {

/// Memory footprint of a process, in bytes.
///
/// The last three sizes exist only on hosts that report them; elsewhere they
/// are `None`.
#[derive(Clone, Copy, Debug, PartialEq, Eq, Structural)]
pub struct Memory {
    pub rss: u64,
    pub vms: u64,
    pub shared: Option<u64>,
    pub text: Option<u64>,
    pub data: Option<u64>,
}

/// CPU time a process has consumed since it started, in microseconds.
#[derive(Clone, Copy, Debug, PartialEq, Eq, Structural)]
pub struct CpuTime {
    pub user: u64,
    pub system: u64,
}

/// CPU usage over one sampling interval, in thousandths of a percent:
/// `CpuUsage(100_000)` is 100 percent, every core of the host busy for the
/// whole interval.
#[derive(Clone, Copy, Debug, PartialEq, Eq, Structural)]
pub struct CpuUsage(pub u64);

/// Cumulative I/O counters of a process.
///
/// The last four counters exist only on hosts that report them.
#[derive(Clone, Copy, Debug, PartialEq, Eq, Structural)]
pub struct Io {
    pub bytes_written: u64,
    pub bytes_read: u64,
    pub disk_written: Option<u64>,
    pub disk_read: Option<u64>,
    pub syscall_written: Option<u64>,
    pub syscall_read: Option<u64>,
}

/// Cumulative counters of one network interface.
#[derive(Clone, Copy, Debug, PartialEq, Eq, Structural)]
pub struct NetIo {
    pub bytes_sent: u64,
    pub bytes_recv: u64,
    pub packets_sent: u64,
    pub packets_recv: u64,
    pub errors_sent: u64,
    pub errors_recv: u64,
    pub drop_recv: u64,
    pub drop_sent: u64,
}

/// One row of a [`NetIoTable`]: an interface and its counters.
#[derive(Clone, Debug, PartialEq, Eq)]
pub struct NetIoEntry {
    pub name: String,
    pub counters: NetIo,
}

impl View for NetIoEntry {
    type V = (Seq<char>, NetIo);

    open spec fn view(&self) -> (Seq<char>, NetIo) {
        (self.name@, self.counters)
    }
}

/// No interface name occurs twice in `rows`.
pub open spec fn distinct_names(rows: Seq<(Seq<char>, NetIo)>) -> bool {
    forall|i: int, j: int| 0 <= i < j < rows.len() ==> rows[i].0 != rows[j].0
}

/// Index of the row of `rows` that is named `name`, if there is one.
pub open spec fn position_of(rows: Seq<(Seq<char>, NetIo)>, name: Seq<char>) -> Option<int>
    decreases rows.len(),
{
    if rows.len() == 0 {
        None
    } else if rows.last().0 == name {
        Some(rows.len() - 1)
    } else {
        position_of(rows.drop_last(), name)
    }
}

/// `position_of` finds a row with the name it was asked for, and fails only
/// when no row has that name.
pub proof fn lemma_position_of(rows: Seq<(Seq<char>, NetIo)>, name: Seq<char>)
    ensures
        match position_of(rows, name) {
            Some(i) => 0 <= i < rows.len() && rows[i].0 == name,
            None => forall|i: int| 0 <= i < rows.len() ==> rows[i].0 != name,
        },
    decreases rows.len(),
{
    if rows.len() > 0 && rows.last().0 != name {
        let front = rows.drop_last();
        lemma_position_of(front, name);
        if position_of(front, name) is None {
            assert forall|i: int| 0 <= i < rows.len() implies rows[i].0 != name by {
                if i < front.len() {
                    assert(front[i] == rows[i]);
                }
            }
        }
    }
}

/// The mapping that `rows` stands for, from interface name to counters.
pub open spec fn rows_to_map(rows: Seq<(Seq<char>, NetIo)>) -> Map<Seq<char>, NetIo> {
    Map::new(
        |name: Seq<char>| position_of(rows, name) is Some,
        |name: Seq<char>| rows[position_of(rows, name).unwrap()].1,
    )
}

/// What `rows` becomes when `name` is set to `counters`: the row of that name
/// is overwritten where it stands, or a new row is added at the end.
pub open spec fn rows_with(rows: Seq<(Seq<char>, NetIo)>, name: Seq<char>, counters: NetIo) -> Seq<
    (Seq<char>, NetIo),
> {
    match position_of(rows, name) {
        Some(i) => rows.update(i, (name, counters)),
        None => rows.push((name, counters)),
    }
}

/// Per-interface network counters, keyed by interface name.
///
/// The rows keep the order in which their names were first inserted, and no
/// name occurs twice.
#[derive(Debug, PartialEq, Eq)]
pub struct NetIoTable {
    rows: Vec<NetIoEntry>,
}

impl View for NetIoTable {
    type V = Seq<(Seq<char>, NetIo)>;

    closed spec fn view(&self) -> Seq<(Seq<char>, NetIo)> {
        Seq::new(self.rows@.len(), |i: int| self.rows@[i]@)
    }
}

impl NetIoTable {
    #[verifier::type_invariant]
    spec fn well_formed(self) -> bool {
        distinct_names(self@)
    }

    /// A table without rows.
    pub fn new() -> (table: NetIoTable)
        ensures
            table@ == Seq::<(Seq<char>, NetIo)>::empty(),
            distinct_names(table@),
    {
        let table = NetIoTable { rows: Vec::new() };
        assert(table@ =~= Seq::<(Seq<char>, NetIo)>::empty());
        table
    }

    /// Number of interfaces in the table.
    pub fn len(&self) -> (n: usize)
        ensures
            n == self@.len(),
            distinct_names(self@),
    {
        proof {
            use_type_invariant(self);
        }
        self.rows.len()
    }

    /// The row at `index`, in insertion order.
    pub fn entry(&self, index: usize) -> (row: &NetIoEntry)
        requires
            index < self@.len(),
        ensures
            row@ == self@[index as int],
    {
        &self.rows[index]
    }

    /// The row at `index`, or `None` where the table has no such row.
    pub fn get_entry(&self, index: usize) -> (row: Option<&NetIoEntry>)
        ensures
            index < self@.len() ==> row is Some && row.unwrap()@ == self@[index as int],
            index >= self@.len() ==> row is None,
    {
        if index < self.rows.len() {
            Some(&self.rows[index])
        } else {
            None
        }
    }

    /// Where the row named `name` stands.
    fn find(&self, name: &String) -> (found: Option<usize>)
        ensures
            match found {
                Some(i) => position_of(self@, name@) == Some(i as int),
                None => position_of(self@, name@) is None,
            },
    {
        let ghost rows = self@;
        let mut i: usize = self.rows.len();
        assert(rows.take(i as int) =~= rows);
        while i > 0
            invariant
                i <= self.rows@.len(),
                rows == self@,
                rows.len() == self.rows@.len(),
                position_of(rows, name@) == position_of(rows.take(i as int), name@),
            decreases i,
        {
            assert(rows.take(i as int).last() == rows[i - 1]);
            assert(rows.take(i as int).drop_last() =~= rows.take(i - 1));
            if self.rows[i - 1].name == *name {
                return Some(i - 1);
            }
            i -= 1;
        }
        assert(rows.take(0).len() == 0);
        None
    }

    /// The counters recorded for `name`.
    pub fn get(&self, name: &str) -> (counters: Option<NetIo>)
        ensures
            counters == if rows_to_map(self@).contains_key(name@) {
                Some(rows_to_map(self@)[name@])
            } else {
                None
            },
    {
        let key = name.to_owned();
        proof {
            lemma_position_of(self@, name@);
        }
        match self.find(&key) {
            Some(i) => Some(self.rows[i].counters),
            None => None,
        }
    }

    /// Sets the counters of `name` and returns the counters that it had
    /// before. A name that is new to the table gets a row at the end.
    pub fn insert(&mut self, name: String, counters: NetIo) -> (previous: Option<NetIo>)
        ensures
            final(self)@ == rows_with(old(self)@, name@, counters),
            distinct_names(final(self)@),
            rows_to_map(final(self)@) == rows_to_map(old(self)@).insert(name@, counters),
            previous == if rows_to_map(old(self)@).contains_key(name@) {
                Some(rows_to_map(old(self)@)[name@])
            } else {
                None
            },
    {
        proof {
            use_type_invariant(&*self);
            lemma_position_of(self@, name@);
            lemma_rows_with(self@, name@, counters);
        }
        let found = self.find(&name);
        let ghost before = self@;
        match found {
            Some(i) => {
                let previous = self.rows[i].counters;
                let mut rows = Vec::new();
                core::mem::swap(&mut rows, &mut self.rows);
                rows.set(i, NetIoEntry { name, counters });
                assert(Seq::new(rows@.len(), |k: int| rows@[k]@) =~= before.update(
                    i as int,
                    (name@, counters),
                ));
                *self = NetIoTable { rows };
                Some(previous)
            },
            None => {
                let mut rows = Vec::new();
                core::mem::swap(&mut rows, &mut self.rows);
                rows.push(NetIoEntry { name, counters });
                assert(Seq::new(rows@.len(), |k: int| rows@[k]@) =~= before.push(
                    (name@, counters),
                ));
                *self = NetIoTable { rows };
                None
            },
        }
    }
}

impl Clone for NetIoTable {
    fn clone(&self) -> (copy: NetIoTable)
        ensures
            copy@ == self@,
    {
        proof {
            use_type_invariant(self);
        }
        let mut rows: Vec<NetIoEntry> = Vec::new();
        let mut i: usize = 0;
        while i < self.rows.len()
            invariant
                i <= self.rows@.len(),
                rows@.len() == i,
                forall|k: int| 0 <= k < i ==> rows@[k]@ == self.rows@[k]@,
            decreases self.rows@.len() - i,
        {
            let row = &self.rows[i];
            rows.push(NetIoEntry { name: row.name.clone(), counters: row.counters });
            i += 1;
        }
        assert(Seq::new(rows@.len(), |k: int| rows@[k]@) =~= self@);
        NetIoTable { rows }
    }
}

/// Setting a name keeps the names of a table distinct, and changes the
/// mapping that the rows stand for at that name only.
pub proof fn lemma_rows_with(rows: Seq<(Seq<char>, NetIo)>, name: Seq<char>, counters: NetIo)
    requires
        distinct_names(rows),
    ensures
        distinct_names(rows_with(rows, name, counters)),
        rows_to_map(rows_with(rows, name, counters)) == rows_to_map(rows).insert(name, counters),
{
    let after = rows_with(rows, name, counters);
    lemma_position_of(rows, name);
    assert(distinct_names(after));
    assert forall|other: Seq<char>|
        position_of(after, other) is Some <==> (other == name || position_of(
            rows,
            other,
        ) is Some) by {
        lemma_position_of(rows, other);
        lemma_position_of(after, other);
        match position_of(rows, name) {
            Some(i) => {
                if other == name {
                    assert(after[i].0 == other);
                } else if position_of(rows, other) is Some {
                    let j = position_of(rows, other).unwrap();
                    assert(after[j].0 == other);
                } else if position_of(after, other) is Some {
                    let j = position_of(after, other).unwrap();
                    assert(rows[j].0 == other);
                }
            },
            None => {
                if other == name {
                    assert(after[rows.len() as int].0 == other);
                } else if position_of(rows, other) is Some {
                    let j = position_of(rows, other).unwrap();
                    assert(after[j].0 == other);
                } else if position_of(after, other) is Some {
                    let j = position_of(after, other).unwrap();
                    assert(j < rows.len());
                    assert(rows[j].0 == other);
                }
            },
        }
    }
    assert forall|other: Seq<char>| position_of(after, other) is Some implies rows_to_map(
        after,
    )[other] == rows_to_map(rows).insert(name, counters)[other] by {
        lemma_position_of(rows, other);
        lemma_position_of(after, other);
        let j = position_of(after, other).unwrap();
        if other == name {
            match position_of(rows, name) {
                Some(i) => {
                    assert(after[i].0 == name);
                    assert(i == j);
                },
                None => {
                    assert(after[rows.len() as int].0 == name);
                    assert(j == rows.len());
                },
            }
        } else {
            let k = position_of(rows, other).unwrap();
            assert(after[k].0 == other);
            assert(j == k);
        }
    }
    assert(rows_to_map(after) =~= rows_to_map(rows).insert(name, counters));
}

/// One sampling result for one process.
#[derive(Clone, Debug, PartialEq, Eq)]
pub struct Data {
    pub memory: Memory,
    pub cpu_time: CpuTime,
    pub cpu_usage: CpuUsage,
    pub io: Io,
    pub net_io: NetIoTable,
}

/// The value of a [`Data`]: its records, and the rows of its interface table.
pub struct DataView {
    pub memory: Memory,
    pub cpu_time: CpuTime,
    pub cpu_usage: CpuUsage,
    pub io: Io,
    pub net_io: Seq<(Seq<char>, NetIo)>,
}

impl View for Data {
    type V = DataView;

    open spec fn view(&self) -> DataView {
        DataView {
            memory: self.memory,
            cpu_time: self.cpu_time,
            cpu_usage: self.cpu_usage,
            io: self.io,
            net_io: self.net_io@,
        }
    }
}

} // verus!
