//! How the sockets of a session share the arena: which frames belong to
//! which socket, and how each socket is bound.

use crate::xdp::socket::{BindFlags, XDP_SHARED_UMEM, XDP_USE_NEED_WAKEUP};
use vstd::prelude::*;

verus! {

/// What a socket is created from.
#[derive(Clone, Copy, Debug, PartialEq, Eq, Structural)]
pub enum Xsk {
    /// The first socket: it registers the arena, and binds with the given
    /// mode.
    Base(BindFlags),
    /// A later socket: it shares the arena of the socket with the given file
    /// descriptor.
    Shared(u32),
}

impl Xsk {
    /// The flags and the shared descriptor with which a socket that sends,
    /// completes and receives is bound.
    pub fn bind_args(&self) -> (r: (BindFlags, u32))
        ensures
            r.0@ == (match *self {
                Xsk::Base(flags) => XDP_USE_NEED_WAKEUP | flags@,
                Xsk::Shared(_) => XDP_SHARED_UMEM,
            }),
            r.1 == (match *self {
                Xsk::Base(_) => 0,
                Xsk::Shared(fd) => fd,
            }),
    {
        match self {
            Xsk::Base(flags) => (BindFlags::need_wakeup().union(*flags), 0),
            Xsk::Shared(fd) => (BindFlags::shared_umem(), *fd),
        }
    }

    /// The flags and the shared descriptor with which a socket that only
    /// sends is bound. Only a socket that shares an arena can be one.
    pub fn sender_only_args(&self) -> (r: Option<(BindFlags, u32)>)
        ensures
            match *self {
                Xsk::Base(_) => r.is_none(),
                Xsk::Shared(fd) => r matches Some(args) && args.0@ == XDP_SHARED_UMEM && args.1
                    == fd,
            },
    {
        match self {
            Xsk::Shared(fd) => Some((BindFlags::shared_umem(), *fd)),
            Xsk::Base(_) => None,
        }
    }
}

/// What a run of frames is used for.
#[derive(Clone, Copy, Debug, PartialEq, Eq, Structural)]
pub enum Role {
    /// The transmit frames of a queue's first socket.
    Sender,
    /// The receive frames of a queue's first socket.
    Receiver,
    /// The transmit frames of a queue's additional socket.
    SendOnly,
}

/// The run of `ring_size` frames that belongs to `role` on queue `queue_id`,
/// counted in runs from the start of the arena.
pub open spec fn block_of(role: Role, queue_id: int, queue_count: int) -> int {
    match role {
        Role::Sender => 2 * queue_id,
        Role::Receiver => 2 * queue_id + 1,
        Role::SendOnly => queue_count + queue_id,
    }
}

/// Whether `role` on queue `queue_id` uses the frame `frame`.
pub open spec fn uses_frame(
    role: Role,
    queue_id: int,
    queue_count: int,
    ring_size: int,
    frame: int,
) -> bool {
    block_of(role, queue_id, queue_count) * ring_size <= frame < block_of(
        role,
        queue_id,
        queue_count,
    ) * ring_size + ring_size
}

/// The number of frames a session allocates: a transmit and a receive run
/// for each queue.
pub fn frames_needed(queue_count: u32, ring_size: u32) -> (n: Option<u32>)
    ensures
        n == if 2 * queue_count * ring_size <= u32::MAX {
            Some((2 * queue_count * ring_size) as u32)
        } else {
            None::<u32>
        },
{
    proof {
        assert(2 * queue_count * ring_size == (2 * queue_count) * ring_size) by (nonlinear_arith);
        if 2 * queue_count > u32::MAX && ring_size > 0 {
            assert((2 * queue_count) * ring_size > u32::MAX) by (nonlinear_arith)
                requires
                    2 * queue_count > u32::MAX,
                    ring_size > 0,
            ;
        }
    }
    if ring_size == 0 {
        assert(2 * queue_count * ring_size == 0) by (nonlinear_arith)
            requires
                ring_size == 0,
        ;
        return Some(0);
    }
    match queue_count.checked_mul(2) {
        None => None,
        Some(runs) => runs.checked_mul(ring_size),
    }
}

/// The first frame of the run that belongs to `role` on queue `queue_id`,
/// if it can be written in 32 bits.
pub fn starting_frame(role: Role, queue_id: u32, queue_count: u32, ring_size: u32) -> (first:
    Option<u32>)
    ensures
        first == if block_of(role, queue_id as int, queue_count as int) * ring_size <= u32::MAX {
            Some((block_of(role, queue_id as int, queue_count as int) * ring_size) as u32)
        } else {
            None::<u32>
        },
{
    let block: u64 = match role {
        Role::Sender => 2 * (queue_id as u64),
        Role::Receiver => 2 * (queue_id as u64) + 1,
        Role::SendOnly => queue_count as u64 + queue_id as u64,
    };
    assert(block * ring_size <= 0x2_0000_0000 * 0x1_0000_0000) by (nonlinear_arith)
        requires
            block <= 0x2_0000_0000,
            ring_size <= 0x1_0000_0000,
    ;
    let first: u128 = (block as u128) * (ring_size as u128);
    if first <= u32::MAX as u128 {
        Some(first as u32)
    } else {
        None
    }
}

/// One socket of a session: where it is bound and which frames are its own.
#[derive(Clone, Copy, Debug, PartialEq, Eq, Structural)]
pub struct SocketPlan {
    pub queue_id: u32,
    /// Whether it shares the arena that the first socket registered.
    pub shared: bool,
    /// The first of its transmit frames.
    pub sender_frame: u32,
    /// The first of its receive frames, if it receives.
    pub receiver_frame: Option<u32>,
}

/// The `n`-th socket of a session: first the socket of queue 0, which
/// registers the arena; then for each further queue a socket that sends and
/// receives and one that only sends, both sharing the arena.
pub open spec fn plan_at(n: int, queue_count: int, ring_size: int) -> SocketPlan {
    if n % 2 == 1 || n == 0 {
        let queue = (n + 1) / 2;
        SocketPlan {
            queue_id: queue as u32,
            shared: n != 0,
            sender_frame: (block_of(Role::Sender, queue, queue_count) * ring_size) as u32,
            receiver_frame: Some((block_of(Role::Receiver, queue, queue_count) * ring_size) as u32),
        }
    } else {
        let queue = n / 2;
        SocketPlan {
            queue_id: queue as u32,
            shared: true,
            sender_frame: (block_of(Role::SendOnly, queue, queue_count) * ring_size) as u32,
            receiver_frame: None,
        }
    }
}

/// The sockets of a session on `queue_count` queues.
pub open spec fn plan_of(queue_count: int, ring_size: int) -> Seq<SocketPlan> {
    Seq::new((2 * queue_count - 1) as nat, |n: int| plan_at(n, queue_count, ring_size))
}

/// The sockets of a session on `queue_count` queues with rings of
/// `ring_size` entries. There is none without a queue, or where the frames
/// cannot be counted in 32 bits.
pub fn socket_plan(queue_count: u32, ring_size: u32) -> (plan: Option<Vec<SocketPlan>>)
    ensures
        plan.is_some() <==> queue_count > 0 && 2 * queue_count * ring_size <= u32::MAX,
        plan.is_some() ==> plan.unwrap()@ == plan_of(queue_count as int, ring_size as int),
{
    if queue_count == 0 || frames_needed(queue_count, ring_size).is_none() {
        return None;
    }
    let ghost q = queue_count as int;
    let ghost r = ring_size as int;
    proof {
        assert(2 * q * r == (2 * q) * r) by (nonlinear_arith);
    }
    let mut plan: Vec<SocketPlan> = Vec::new();
    let mut queue_id: u32 = 0;
    while queue_id < queue_count
        invariant
            q == queue_count,
            r == ring_size,
            0 < queue_count,
            (2 * q) * r <= u32::MAX,
            queue_id <= queue_count,
            plan@.len() == if queue_id == 0 {
                0
            } else {
                2 * queue_id - 1
            },
            forall|n: int| 0 <= n < plan@.len() ==> plan@[n] == plan_at(n, q, r),
        decreases queue_count - queue_id,
    {
        proof {
            let k = queue_id as int;
            assert((2 * k) * r <= (2 * q) * r && (2 * k + 1) * r <= (2 * q) * r && (q + k) * r <= (
            2 * q) * r && 0 <= (2 * k) * r && 0 <= (q + k) * r) by (nonlinear_arith)
                requires
                    0 <= k < q,
                    0 <= r,
            ;
        }
        let sender_frame = starting_frame(Role::Sender, queue_id, queue_count, ring_size).unwrap();
        let receiver_frame = starting_frame(
            Role::Receiver,
            queue_id,
            queue_count,
            ring_size,
        ).unwrap();
        plan.push(
            SocketPlan {
                queue_id,
                shared: queue_id != 0,
                sender_frame,
                receiver_frame: Some(receiver_frame),
            },
        );
        if queue_id != 0 {
            let sender_frame = starting_frame(
                Role::SendOnly,
                queue_id,
                queue_count,
                ring_size,
            ).unwrap();
            plan.push(SocketPlan { queue_id, shared: true, sender_frame, receiver_frame: None });
        }
        queue_id += 1;
    }
    assert(plan@ =~= plan_of(q, r));
    Some(plan)
}

/// The runs of two different users do not overlap where they are different
/// runs: no frame is used by both.
pub proof fn lemma_blocks_disjoint(a: int, b: int, ring_size: int, frame: int)
    requires
        a != b,
        0 <= ring_size,
        a * ring_size <= frame < a * ring_size + ring_size,
    ensures
        !(b * ring_size <= frame < b * ring_size + ring_size),
{
    if a < b {
        assert((a + 1) * ring_size <= b * ring_size) by (nonlinear_arith)
            requires
                a + 1 <= b,
                0 <= ring_size,
        ;
        assert((a + 1) * ring_size == a * ring_size + ring_size) by (nonlinear_arith);
    } else {
        assert((b + 1) * ring_size <= a * ring_size) by (nonlinear_arith)
            requires
                b + 1 <= a,
                0 <= ring_size,
        ;
        assert((b + 1) * ring_size == b * ring_size + ring_size) by (nonlinear_arith);
    }
}

/// The frames are parted by queue and role: senders and receivers of all
/// queues use frames of their own, and so do the send-only sockets among
/// themselves. A send-only socket shares no frame with a sender or receiver
/// unless its run is that one's run, which is the case where the queue
/// count plus its queue is twice the other's queue (a sender) or one more
/// (a receiver).
pub proof fn lemma_frames_parted(
    role_a: Role,
    queue_a: int,
    role_b: Role,
    queue_b: int,
    queue_count: int,
    ring_size: int,
    frame: int,
)
    requires
        0 <= queue_a,
        0 <= queue_b,
        0 <= ring_size,
        role_a != role_b || queue_a != queue_b,
        (role_a == Role::SendOnly) != (role_b == Role::SendOnly) ==> block_of(
            role_a,
            queue_a,
            queue_count,
        ) != block_of(role_b, queue_b, queue_count),
        uses_frame(role_a, queue_a, queue_count, ring_size, frame),
    ensures
        !uses_frame(role_b, queue_b, queue_count, ring_size, frame),
{
    lemma_blocks_disjoint(
        block_of(role_a, queue_a, queue_count),
        block_of(role_b, queue_b, queue_count),
        ring_size,
        frame,
    );
}

} // verus!
