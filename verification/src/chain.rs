//! A frame on its way down the chain of slaves.
//!
//! The master sends a frame to the first slave; each slave sends on what
//! [`SlaveControl::receive_command`](crate::slave::SlaveControl::receive_command) makes
//! of it; what the last slave sends comes back to the master. This module says what
//! then holds of the frame that comes back, for each kind of address.
use crate::command::{Command, MAX_COMMAND};
use crate::slave::control::{
    executes, intact, spec_map_frame_slave, spec_send_data, spec_send_header, well_formed,
    SlaveModel,
};
use vstd::prelude::*;

verus! {

/// The frame that comes out of a chain of slaves into which `header` and `data` went: each
/// slave in turn receives what the one before it sent on.
pub open spec fn spec_chain(slaves: Seq<SlaveModel>, header: Command, data: Seq<u8>) -> (
    Command,
    Seq<u8>,
)
    decreases slaves.len(),
{
    if slaves.len() == 0 {
        (header, data)
    } else {
        let received = spec_chain(slaves.drop_last(), header, data);
        (
            spec_send_header(slaves.last(), received.0, received.1),
            spec_send_data(slaves.last(), received.0, received.1),
        )
    }
}

/// The frame that reaches the slave at position `at`: what the slaves before it made of
/// the frame that went into the chain.
pub open spec fn spec_reaches(slaves: Seq<SlaveModel>, header: Command, data: Seq<u8>, at: int) -> (
    Command,
    Seq<u8>,
) {
    spec_chain(slaves.take(at), header, data)
}

/// The slave at position `at` executes the command.
pub open spec fn spec_executes_at(
    slaves: Seq<SlaveModel>,
    header: Command,
    data: Seq<u8>,
    at: int,
) -> bool {
    executes(
        slaves[at].address,
        spec_reaches(slaves, header, data, at).0,
        spec_reaches(slaves, header, data, at).1,
    )
}

/// Number of slaves among the first `upto` that execute the command.
pub open spec fn spec_executions(
    slaves: Seq<SlaveModel>,
    header: Command,
    data: Seq<u8>,
    upto: int,
) -> nat
    decreases upto,
{
    if upto <= 0 {
        0
    } else if spec_executes_at(slaves, header, data, upto - 1) {
        spec_executions(slaves, header, data, upto - 1) + 1
    } else {
        spec_executions(slaves, header, data, upto - 1)
    }
}

/// Number of slaves among the first `upto` whose fixed address is `address`.
pub open spec fn spec_count_fixed(slaves: Seq<SlaveModel>, address: u16, upto: int) -> nat
    decreases upto,
{
    if upto <= 0 {
        0
    } else if slaves[upto - 1].address == address {
        spec_count_fixed(slaves, address, upto - 1) + 1
    } else {
        spec_count_fixed(slaves, address, upto - 1)
    }
}

/// The mapping of a slave holds some of the virtual addresses that the command asks for.
pub open spec fn spec_intersects(slave: SlaveModel, header: Command) -> bool {
    exists|i: int|
        0 <= i < slave.mapping.len() && spec_map_frame_slave(
            #[trigger] slave.mapping[i],
            header,
        ).is_some()
}

/// Number of slaves among the first `upto` whose mapping holds some of the virtual
/// addresses that the command asks for.
pub open spec fn spec_count_intersecting(slaves: Seq<SlaveModel>, header: Command, upto: int) -> nat
    decreases upto,
{
    if upto <= 0 {
        0
    } else if spec_intersects(slaves[upto - 1], header) {
        spec_count_intersecting(slaves, header, upto - 1) + 1
    } else {
        spec_count_intersecting(slaves, header, upto - 1)
    }
}

/// The rank that a topological frame has after `steps` slaves, counting round.
pub open spec fn spec_rank_after(rank: u16, steps: int) -> u16 {
    ((rank - steps) % 0x1_0000) as u16
}

/// What reaches the slave behind position `at` is what the slave at `at` sends on.
pub proof fn lemma_reaches_next(slaves: Seq<SlaveModel>, header: Command, data: Seq<u8>, at: int)
    requires
        0 <= at < slaves.len(),
    ensures
        spec_reaches(slaves, header, data, at + 1) == (
            spec_send_header(
                slaves[at],
                spec_reaches(slaves, header, data, at).0,
                spec_reaches(slaves, header, data, at).1,
            ),
            spec_send_data(
                slaves[at],
                spec_reaches(slaves, header, data, at).0,
                spec_reaches(slaves, header, data, at).1,
            ),
        ),
        spec_reaches(slaves, header, data, 0) == (header, data),
        spec_reaches(slaves, header, data, slaves.len() as int) == spec_chain(slaves, header, data),
{
    assert(slaves.take(at + 1).drop_last() =~= slaves.take(at));
    assert(slaves.take(at + 1).last() == slaves[at]);
    assert(slaves.take(slaves.len() as int) =~= slaves);
    assert(slaves.take(0).len() == 0);
}

/// Data that fit their header still fit it after a slave: a slave that changes the data
/// sets their checksum.
pub proof fn lemma_intact_kept(slave: SlaveModel, header: Command, data: Seq<u8>)
    requires
        intact(header, data),
    ensures
        intact(spec_send_header(slave, header, data), spec_send_data(slave, header, data)),
{
}

/// A chain leaves the token, the size, the register and the kind of a frame as they are,
/// and the rank or fixed address too but for a topological frame that slaves can
/// execute. Data that fit their header still fit it.
pub proof fn lemma_kept(slaves: Seq<SlaveModel>, header: Command, data: Seq<u8>, at: int)
    requires
        0 <= at <= slaves.len(),
    ensures
        ({
            let reached = spec_reaches(slaves, header, data, at).0;
            &&& reached.token == header.token
            &&& reached.size == header.size
            &&& reached.access.read == header.access.read
            &&& reached.access.write == header.access.write
            &&& reached.access.fixed == header.access.fixed
            &&& reached.access.topological == header.access.topological
            &&& reached.access.reserved == header.access.reserved
            &&& reached.address.register == header.address.register
            &&& well_formed(reached) == well_formed(header)
            &&& !(well_formed(header) && header.access.topological) ==> reached.address.slave
                == header.address.slave
            &&& well_formed(header) && header.access.topological ==> reached.address.slave
                == spec_rank_after(header.address.slave, at)
            &&& intact(header, data) ==> intact(reached, spec_reaches(slaves, header, data, at).1)
        }),
    decreases at,
{
    if at > 0 {
        lemma_kept(slaves, header, data, at - 1);
        lemma_reaches_next(slaves, header, data, at - 1);
        let before = spec_reaches(slaves, header, data, at - 1);
        if intact(header, data) {
            lemma_intact_kept(slaves[at - 1], before.0, before.1);
        }
    } else {
        assert(slaves.take(0).len() == 0);
    }
}

/// The count of executions that comes out of a chain is the count that went in, plus
/// one for each slave that executed the command, counting round on eight bits.
pub proof fn lemma_executed(slaves: Seq<SlaveModel>, header: Command, data: Seq<u8>, upto: int)
    requires
        0 <= upto <= slaves.len(),
    ensures
        spec_reaches(slaves, header, data, upto).0.executed == (header.executed + spec_executions(
            slaves,
            header,
            data,
            upto,
        )) % 256,
    decreases upto,
{
    if upto > 0 {
        lemma_executed(slaves, header, data, upto - 1);
        lemma_reaches_next(slaves, header, data, upto - 1);
    } else {
        assert(slaves.take(0).len() == 0);
    }
}

/// Topological addressing: of a chain of slaves that receives a frame well formed and
/// intact, with a rank that names a slave of the chain, exactly the slave at that rank
/// executes the command. The chain is no longer than the ranks reach: a rank counts
/// round after 65536 slaves.
pub proof fn lemma_topological(slaves: Seq<SlaveModel>, header: Command, data: Seq<u8>)
    requires
        header.access.topological,
        well_formed(header),
        intact(header, data),
        header.address.slave < slaves.len() <= header.address.slave + 0x1_0000,
    ensures
        forall|at: int|
            0 <= at < slaves.len() ==> (#[trigger] spec_executes_at(slaves, header, data, at) <==> at
                == header.address.slave),
        spec_executions(slaves, header, data, slaves.len() as int) == 1,
        spec_chain(slaves, header, data).0.executed == (header.executed + 1) % 256,
        header.executed == 0 ==> spec_chain(slaves, header, data).0.executed == 1,
{
    let rank = header.address.slave as int;
    assert forall|at: int| 0 <= at < slaves.len() implies (#[trigger] spec_executes_at(
        slaves,
        header,
        data,
        at,
    ) <==> at == rank) by {
        lemma_kept(slaves, header, data, at);
    }
    lemma_topological_count(slaves, header, data, slaves.len() as int);
    lemma_executed(slaves, header, data, slaves.len() as int);
    lemma_reaches_next(slaves, header, data, 0);
}

/// Of the first `upto` slaves, one executed a topological command if the slave that the
/// rank names is among them, and none else.
proof fn lemma_topological_count(
    slaves: Seq<SlaveModel>,
    header: Command,
    data: Seq<u8>,
    upto: int,
)
    requires
        0 <= upto <= slaves.len(),
        forall|at: int|
            0 <= at < slaves.len() ==> (#[trigger] spec_executes_at(slaves, header, data, at) <==> at
                == header.address.slave),
    ensures
        spec_executions(slaves, header, data, upto) == if header.address.slave < upto {
            1nat
        } else {
            0nat
        },
    decreases upto,
{
    if upto > 0 {
        lemma_topological_count(slaves, header, data, upto - 1);
    }
}

/// Fixed addressing: only a slave whose fixed address is the one in the frame executes
/// the command, so that no more slaves execute it than have that address.
pub proof fn lemma_fixed(slaves: Seq<SlaveModel>, header: Command, data: Seq<u8>, upto: int)
    requires
        header.access.fixed,
        !header.access.topological,
        0 <= upto <= slaves.len(),
    ensures
        forall|at: int|
            0 <= at < slaves.len() && #[trigger] spec_executes_at(slaves, header, data, at)
                ==> slaves[at].address == header.address.slave,
        spec_executions(slaves, header, data, upto) <= spec_count_fixed(
            slaves,
            header.address.slave,
            upto,
        ),
    decreases upto,
{
    assert forall|at: int|
        0 <= at < slaves.len() && #[trigger] spec_executes_at(
            slaves,
            header,
            data,
            at,
        ) implies slaves[at].address == header.address.slave by {
        lemma_kept(slaves, header, data, at);
    }
    if upto > 0 {
        lemma_fixed(slaves, header, data, upto - 1);
    }
}

/// Fixed addressing of a frame well formed and intact: exactly the slaves whose fixed
/// address is the one in the frame execute the command.
pub proof fn lemma_fixed_intact(slaves: Seq<SlaveModel>, header: Command, data: Seq<u8>, upto: int)
    requires
        header.access.fixed,
        well_formed(header),
        intact(header, data),
        0 <= upto <= slaves.len(),
    ensures
        forall|at: int|
            0 <= at < slaves.len() ==> (#[trigger] spec_executes_at(slaves, header, data, at)
                <==> slaves[at].address == header.address.slave),
        spec_executions(slaves, header, data, upto) == spec_count_fixed(
            slaves,
            header.address.slave,
            upto,
        ),
    decreases upto,
{
    assert forall|at: int| 0 <= at < slaves.len() implies (#[trigger] spec_executes_at(
        slaves,
        header,
        data,
        at,
    ) <==> slaves[at].address == header.address.slave) by {
        lemma_kept(slaves, header, data, at);
    }
    if upto > 0 {
        lemma_fixed_intact(slaves, header, data, upto - 1);
    }
}

/// Where no two of the first `upto` slaves have the fixed address `address`, at most one
/// has it.
pub proof fn lemma_count_fixed_distinct(slaves: Seq<SlaveModel>, address: u16, upto: int)
    requires
        0 <= upto <= slaves.len(),
        forall|i: int, j: int|
            0 <= i < j < slaves.len() ==> !(slaves[i].address == address && slaves[j].address
                == address),
    ensures
        spec_count_fixed(slaves, address, upto) <= 1,
        spec_count_fixed(slaves, address, upto) == 1 ==> exists|at: int|
            0 <= at < upto && slaves[at].address == address,
        spec_count_fixed(slaves, address, upto) == 0 ==> forall|at: int|
            0 <= at < upto ==> slaves[at].address != address,
    decreases upto,
{
    if upto > 0 {
        lemma_count_fixed_distinct(slaves, address, upto - 1);
        if slaves[upto - 1].address == address {
            if spec_count_fixed(slaves, address, upto - 1) == 1 {
                let at = choose|at: int| 0 <= at < upto - 1 && slaves[at].address == address;
                assert(!(slaves[at].address == address && slaves[upto - 1].address == address));
            }
        }
    }
}

/// Fixed addressing: where no two slaves of the chain have the fixed address in the
/// frame, at most one slave executes the command, and a frame that went in with no
/// execution counted comes out with at most one.
pub proof fn lemma_fixed_at_most_one(slaves: Seq<SlaveModel>, header: Command, data: Seq<u8>)
    requires
        header.access.fixed,
        !header.access.topological,
        forall|i: int, j: int|
            0 <= i < j < slaves.len() ==> !(slaves[i].address == header.address.slave
                && slaves[j].address == header.address.slave),
    ensures
        spec_executions(slaves, header, data, slaves.len() as int) <= 1,
        header.executed == 0 ==> spec_chain(slaves, header, data).0.executed <= 1,
{
    lemma_fixed(slaves, header, data, slaves.len() as int);
    lemma_count_fixed_distinct(slaves, header.address.slave, slaves.len() as int);
    lemma_executed(slaves, header, data, slaves.len() as int);
    lemma_reaches_next_end(slaves, header, data);
}

/// What reaches the end of a chain is what comes out of it.
pub proof fn lemma_reaches_next_end(slaves: Seq<SlaveModel>, header: Command, data: Seq<u8>)
    ensures
        spec_reaches(slaves, header, data, slaves.len() as int) == spec_chain(slaves, header, data),
{
    assert(slaves.take(slaves.len() as int) =~= slaves);
}

/// Virtual addressing: every slave of the chain executes a command to the virtual
/// memory that comes well formed and intact, whether or not its mapping holds any of
/// the addresses asked for.
pub proof fn lemma_virtual(slaves: Seq<SlaveModel>, header: Command, data: Seq<u8>, upto: int)
    requires
        !header.access.fixed,
        !header.access.topological,
        header.size <= MAX_COMMAND,
        intact(header, data),
        0 <= upto <= slaves.len(),
    ensures
        forall|at: int| 0 <= at < slaves.len() ==> #[trigger] spec_executes_at(slaves, header, data, at),
        spec_executions(slaves, header, data, upto) == upto,
        spec_reaches(slaves, header, data, upto).0.executed == (header.executed + upto) % 256,
    decreases upto,
{
    assert forall|at: int| 0 <= at < slaves.len() implies #[trigger] spec_executes_at(
        slaves,
        header,
        data,
        at,
    ) by {
        lemma_kept(slaves, header, data, at);
    }
    if upto > 0 {
        lemma_virtual(slaves, header, data, upto - 1);
    }
    lemma_executed(slaves, header, data, upto);
}

/// Virtual addressing, where the mapping of every slave of the chain holds some of the
/// addresses asked for: the count of executions that comes out is the count that went
/// in plus the number of slaves whose mapping holds some of those addresses.
pub proof fn lemma_virtual_intersecting(slaves: Seq<SlaveModel>, header: Command, data: Seq<u8>)
    requires
        !header.access.fixed,
        !header.access.topological,
        header.size <= MAX_COMMAND,
        intact(header, data),
        forall|at: int| 0 <= at < slaves.len() ==> spec_intersects(#[trigger] slaves[at], header),
    ensures
        spec_chain(slaves, header, data).0.executed == (header.executed + spec_count_intersecting(
            slaves,
            header,
            slaves.len() as int,
        )) % 256,
        spec_executions(slaves, header, data, slaves.len() as int) == spec_count_intersecting(
            slaves,
            header,
            slaves.len() as int,
        ),
{
    lemma_virtual(slaves, header, data, slaves.len() as int);
    lemma_count_all_intersecting(slaves, header, slaves.len() as int);
    lemma_reaches_next_end(slaves, header, data);
}

/// Where the mapping of each of the first `upto` slaves holds some of the addresses
/// asked for, the slaves that do so are `upto`.
proof fn lemma_count_all_intersecting(slaves: Seq<SlaveModel>, header: Command, upto: int)
    requires
        0 <= upto <= slaves.len(),
        forall|at: int| 0 <= at < slaves.len() ==> spec_intersects(#[trigger] slaves[at], header),
    ensures
        spec_count_intersecting(slaves, header, upto) == upto,
    decreases upto,
{
    if upto > 0 {
        lemma_count_all_intersecting(slaves, header, upto - 1);
    }
}

} // verus!
