//! Inter-process messages, the fixed-capacity ring buffer that holds them,
//! the queues of processes waiting on a channel, the channels and the table
//! of open channels.
use vstd::prelude::*;

verus! {

/// Number of messages a channel buffer holds.
pub const CHANNEL_CAPACITY: usize = 64;
/// Maximum payload of one message in bytes.
pub const MESSAGE_SIZE: usize = 256;

/// Process identifier.
pub type Pid = u64;

/// Why a blocked process waits.
pub enum WaitReason {
    NotWaiting,
    IpcSend,
    IpcRecv,
    Mutex,
    Sleep,
    Input,
}

impl WaitReason {
    /// The numeric code stored in a process's wait slot.
    pub fn code(&self) -> (r: u64)
        ensures
            r == match *self {
                WaitReason::NotWaiting => 0u64,
                WaitReason::IpcSend => 1,
                WaitReason::IpcRecv => 2,
                WaitReason::Mutex => 3,
                WaitReason::Sleep => 4,
                WaitReason::Input => 5,
            },
    {
        match self {
            WaitReason::NotWaiting => 0,
            WaitReason::IpcSend => 1,
            WaitReason::IpcRecv => 2,
            WaitReason::Mutex => 3,
            WaitReason::Sleep => 4,
            WaitReason::Input => 5,
        }
    }
}

/// An IPC message: a type tag, the sender and up to `MESSAGE_SIZE` bytes.
pub struct Message {
    pub msg_type: u32,
    pub sender: Pid,
    pub data: [u8; 256],
    pub len: usize,
}

impl Message {
    /// The payload the message carries.
    pub open spec fn payload(&self) -> Seq<u8> {
        self.data@.subrange(0, self.len as int)
    }

    pub open spec fn wf(&self) -> bool {
        self.len <= MESSAGE_SIZE
    }

    /// Builds a message; payloads longer than `MESSAGE_SIZE` are cut to that size.
    pub fn new(msg_type: u32, sender: Pid, data: &[u8]) -> (m: Self)
        ensures
            m.wf(),
            m.msg_type == msg_type,
            m.sender == sender,
            m.len == if data@.len() < MESSAGE_SIZE { data@.len() } else { MESSAGE_SIZE as nat },
            m.payload() == data@.subrange(0, m.len as int),
            forall|i: int| m.len <= i < MESSAGE_SIZE ==> m.data@[i] == 0,
    {
        let len: usize = if data.len() < MESSAGE_SIZE { data.len() } else { MESSAGE_SIZE };
        let mut buf: [u8; 256] = [0u8; 256];
        let mut i: usize = 0;
        while i < len
            invariant
                len <= data@.len(),
                len <= MESSAGE_SIZE,
                i <= len,
                buf@.len() == MESSAGE_SIZE,
                forall|j: int| 0 <= j < i ==> buf@[j] == data@[j],
                forall|j: int| len <= j < MESSAGE_SIZE ==> buf@[j] == 0,
            decreases len - i,
        {
            buf[i] = data[i];
            i = i + 1;
        }
        let m = Message { msg_type, sender, data: buf, len };
        assert(m.payload() =~= data@.subrange(0, len as int));
        m
    }

    /// The payload bytes.
    pub fn data(&self) -> (r: &[u8])
        requires
            self.wf(),
        ensures
            r@ == self.payload(),
    {
        let a: &[u8] = self.data.as_slice();
        &a[0..self.len]
    }

    /// A copy of the message.
    pub fn duplicate(&self) -> (r: Self)
        ensures
            r == *self,
    {
        Message { msg_type: self.msg_type, sender: self.sender, data: self.data, len: self.len }
    }
}

/// A ring of `CHANNEL_CAPACITY` message slots, first in, first out.
pub struct MessageBuffer {
    messages: Vec<Option<Message>>,
    head: usize,
    tail: usize,
    count: usize,
}

impl MessageBuffer {
    /// The queued messages, oldest first.
    pub closed spec fn view(&self) -> Seq<Message> {
        Seq::new(self.count as nat, |i: int| self.messages@[(self.head + i) % (CHANNEL_CAPACITY as int)]->0)
    }

    pub closed spec fn wf(&self) -> bool {
        &&& self.messages@.len() == CHANNEL_CAPACITY
        &&& self.head < CHANNEL_CAPACITY
        &&& self.count <= CHANNEL_CAPACITY
        &&& self.tail == (self.head + self.count) % (CHANNEL_CAPACITY as int)
        &&& forall|i: int| 0 <= i < self.count ==> (#[trigger] self.messages@[(self.head + i) % (CHANNEL_CAPACITY as int)]) is Some
    }

    /// An empty buffer.
    pub fn new() -> (b: Self)
        ensures
            b.wf(),
            b@ == Seq::<Message>::empty(),
    {
        let mut messages: Vec<Option<Message>> = Vec::new();
        let mut i: usize = 0;
        while i < CHANNEL_CAPACITY
            invariant
                i <= CHANNEL_CAPACITY,
                messages@.len() == i,
            decreases CHANNEL_CAPACITY - i,
        {
            messages.push(None);
            i = i + 1;
        }
        let b = MessageBuffer { messages, head: 0, tail: 0, count: 0 };
        assert(b@ =~= Seq::<Message>::empty());
        b
    }

    /// Appends a message; refused (false, buffer unchanged) when the buffer is full.
    pub fn push(&mut self, msg: Message) -> (ok: bool)
        requires
            old(self).wf(),
        ensures
            final(self).wf(),
            ok == (old(self)@.len() < CHANNEL_CAPACITY),
            ok ==> final(self)@ == old(self)@.push(msg),
            !ok ==> final(self)@ == old(self)@,
    {
        if self.count >= CHANNEL_CAPACITY {
            return false;
        }
        let ghost old_self = *self;
        let t = self.tail;
        self.messages.set(t, Some(msg));
        self.tail = (self.tail + 1) % CHANNEL_CAPACITY;
        self.count = self.count + 1;
        proof {
            assert forall|i: int| 0 <= i < self.count implies (#[trigger] self.messages@[(self.head + i) % (CHANNEL_CAPACITY as int)]) is Some by {
                if i < old_self.count {
                    assert((self.head + i) % 64 != t as int) by {
                        assert(t as int == (self.head + old_self.count) % 64);
                    }
                }
            }
            assert forall|i: int| 0 <= i < self.count implies #[trigger] self@[i] == old_self@.push(msg)[i] by {
                if i < old_self.count {
                    assert((self.head + i) % 64 != t as int);
                } else {
                    assert((self.head + i) % 64 == t as int);
                }
            }
            assert(self@ =~= old_self@.push(msg));
        }
        true
    }

    /// Removes and returns the oldest message, or `None` when the buffer is empty.
    pub fn pop(&mut self) -> (r: Option<Message>)
        requires
            old(self).wf(),
        ensures
            final(self).wf(),
            old(self)@.len() == 0 ==> r is None && final(self)@ == old(self)@,
            old(self)@.len() > 0 ==> r == Some(old(self)@[0]) && final(self)@ == old(self)@.drop_first(),
    {
        if self.count == 0 {
            return None;
        }
        let ghost old_self = *self;
        let h = self.head;
        let mut slot: Option<Message> = None;
        std::mem::swap(&mut slot, &mut self.messages[h]);
        self.head = (self.head + 1) % CHANNEL_CAPACITY;
        self.count = self.count - 1;
        proof {
            assert(old_self.messages@[(old_self.head + 0) % 64] is Some);
            assert forall|i: int| 0 <= i < self.count implies (#[trigger] self.messages@[(self.head + i) % (CHANNEL_CAPACITY as int)]) is Some by {
                assert((self.head + i) % 64 == (old_self.head + (i + 1)) % 64);
                assert((old_self.head + (i + 1)) % 64 != h as int);
                assert(old_self.messages@[(old_self.head + (i + 1)) % (CHANNEL_CAPACITY as int)] is Some);
            }
            assert forall|i: int| 0 <= i < self.count implies #[trigger] self@[i] == old_self@.drop_first()[i] by {
                assert((self.head + i) % 64 == (old_self.head + (i + 1)) % 64);
                assert((old_self.head + (i + 1)) % 64 != h as int);
            }
            assert(self@ =~= old_self@.drop_first());
        }
        slot
    }

    /// Whether no further message fits.
    pub fn is_full(&self) -> (r: bool)
        requires
            self.wf(),
        ensures
            r == (self@.len() == CHANNEL_CAPACITY),
    {
        self.count >= CHANNEL_CAPACITY
    }

    /// Whether no message is queued.
    pub fn is_empty(&self) -> (r: bool)
        requires
            self.wf(),
        ensures
            r == (self@.len() == 0),
    {
        self.count == 0
    }
}

/// Errors of channel operations.
#[derive(Clone, Copy, PartialEq, Eq, Structural)]
pub enum IpcError {
    ChannelClosed,
    WouldBlock,
    InvalidChannel,
    PermissionDenied,
}

/// The processes blocked on one side of a channel, in the order they came.
pub struct WaitQueue {
    pub waiters: Vec<Pid>,
}

impl WaitQueue {
    pub fn new() -> (q: Self)
        ensures
            q.waiters@ == Seq::<Pid>::empty(),
    {
        WaitQueue { waiters: Vec::new() }
    }

    /// Queues `pid` as waiting (the caller then blocks it and yields).
    pub fn wait(&mut self, pid: Pid)
        ensures
            final(self).waiters@ == old(self).waiters@.push(pid),
    {
        self.waiters.push(pid);
    }

    /// Takes the longest-waiting process off the queue, if any.
    pub fn wake_one(&mut self) -> (r: Option<Pid>)
        ensures
            old(self).waiters@.len() == 0 ==> r is None && final(self).waiters@ == old(self).waiters@,
            old(self).waiters@.len() > 0 ==> r == Some(old(self).waiters@[0]) && final(self).waiters@ == old(
                self,
            ).waiters@.drop_first(),
    {
        if self.waiters.len() == 0 {
            return None;
        }
        Some(self.waiters.remove(0))
    }

    /// Takes every waiting process off the queue, in order.
    pub fn wake_all(&mut self) -> (r: Vec<Pid>)
        ensures
            r@ == old(self).waiters@,
            final(self).waiters@ == Seq::<Pid>::empty(),
    {
        let mut r: Vec<Pid> = Vec::new();
        std::mem::swap(&mut r, &mut self.waiters);
        r
    }

    pub fn is_empty(&self) -> (b: bool)
        ensures
            b == (self.waiters@.len() == 0),
    {
        self.waiters.len() == 0
    }
}

/// What one attempt to send on a channel came to.
pub enum SendStep {
    /// The message is queued; the receiver that was woken, if one waited.
    Sent(Option<Pid>),
    /// The buffer is full: the sender is queued and is to block, then try
    /// again.
    Blocked,
    Failed(IpcError),
}

/// What one attempt to receive from a channel came to.
pub enum RecvStep {
    /// The oldest message, and the sender that was woken, if one waited.
    Received(Message, Option<Pid>),
    /// The buffer is empty: the receiver is queued and is to block, then
    /// try again.
    Blocked,
    Failed(IpcError),
}

/// A channel: a buffer of messages, the blocked senders and receivers, and
/// whether it was closed.
pub struct Channel {
    pub id: u64,
    pub buffer: MessageBuffer,
    pub send_waiters: WaitQueue,
    pub recv_waiters: WaitQueue,
    pub closed: bool,
}

impl Channel {
    pub open spec fn wf(&self) -> bool {
        self.buffer.wf()
    }

    /// An open, empty channel with no waiter.
    pub fn new(id: u64) -> (c: Self)
        ensures
            c.wf(),
            c.id == id,
            c.buffer@ == Seq::<Message>::empty(),
            c.send_waiters.waiters@ == Seq::<Pid>::empty(),
            c.recv_waiters.waiters@ == Seq::<Pid>::empty(),
            !c.closed,
    {
        Channel { id, buffer: MessageBuffer::new(), send_waiters: WaitQueue::new(), recv_waiters: WaitQueue::new(), closed: false }
    }

    /// One attempt to send `msg` for process `current` (`None` outside any
    /// process): refused on a closed channel; queued when there is room,
    /// waking the longest-waiting receiver; otherwise the sender waits,
    /// which outside a process is refused as `WouldBlock`.
    pub fn send(&mut self, msg: Message, current: Option<Pid>) -> (r: SendStep)
        requires
            old(self).wf(),
        ensures
            final(self).wf(),
            final(self).id == old(self).id,
            final(self).closed == old(self).closed,
            old(self).closed ==> r == SendStep::Failed(IpcError::ChannelClosed) && *final(self) == *old(self),
            !old(self).closed && old(self).buffer@.len() < CHANNEL_CAPACITY ==> {
                &&& final(self).buffer@ == old(self).buffer@.push(msg)
                &&& final(self).send_waiters.waiters@ == old(self).send_waiters.waiters@
                &&& match r {
                    SendStep::Sent(w) => if old(self).recv_waiters.waiters@.len() == 0 {
                        w is None && final(self).recv_waiters.waiters@ == old(self).recv_waiters.waiters@
                    } else {
                        w == Some(old(self).recv_waiters.waiters@[0])
                            && final(self).recv_waiters.waiters@ == old(self).recv_waiters.waiters@.drop_first()
                    },
                    _ => false,
                }
            },
            !old(self).closed && old(self).buffer@.len() >= CHANNEL_CAPACITY ==> {
                &&& final(self).buffer@ == old(self).buffer@
                &&& final(self).recv_waiters.waiters@ == old(self).recv_waiters.waiters@
                &&& match current {
                    Some(pid) => r == SendStep::Blocked && final(self).send_waiters.waiters@
                        == old(self).send_waiters.waiters@.push(pid),
                    None => r == SendStep::Failed(IpcError::WouldBlock) && final(self).send_waiters.waiters@ == old(self).send_waiters.waiters@,
                }
            },
    {
        if self.closed {
            return SendStep::Failed(IpcError::ChannelClosed);
        }
        if self.buffer.push(msg) {
            let woken = self.recv_waiters.wake_one();
            return SendStep::Sent(woken);
        }
        match current {
            Some(pid) => {
                self.send_waiters.wait(pid);
                SendStep::Blocked
            },
            None => SendStep::Failed(IpcError::WouldBlock),
        }
    }

    /// One attempt to receive for process `current`: the oldest message,
    /// waking the longest-waiting sender; on an empty channel, refused when
    /// it is closed, else the receiver waits (refused as `WouldBlock`
    /// outside any process).
    pub fn recv(&mut self, current: Option<Pid>) -> (r: RecvStep)
        requires
            old(self).wf(),
        ensures
            final(self).wf(),
            final(self).id == old(self).id,
            final(self).closed == old(self).closed,
            old(self).buffer@.len() > 0 ==> {
                &&& final(self).buffer@ == old(self).buffer@.drop_first()
                &&& final(self).recv_waiters.waiters@ == old(self).recv_waiters.waiters@
                &&& match r {
                    RecvStep::Received(m, w) => m == old(self).buffer@[0] && if old(self).send_waiters.waiters@.len()
                        == 0 {
                        w is None && final(self).send_waiters.waiters@ == old(self).send_waiters.waiters@
                    } else {
                        w == Some(old(self).send_waiters.waiters@[0])
                            && final(self).send_waiters.waiters@ == old(self).send_waiters.waiters@.drop_first()
                    },
                    _ => false,
                }
            },
            old(self).buffer@.len() == 0 && old(self).closed ==> r == RecvStep::Failed(IpcError::ChannelClosed)
                && final(self).buffer@ == old(self).buffer@ && final(self).send_waiters.waiters@ == old(self).send_waiters.waiters@
                && final(self).recv_waiters.waiters@ == old(self).recv_waiters.waiters@,
            old(self).buffer@.len() == 0 && !old(self).closed ==> {
                &&& final(self).buffer@ == old(self).buffer@
                &&& final(self).send_waiters.waiters@ == old(self).send_waiters.waiters@
                &&& match current {
                    Some(pid) => r == RecvStep::Blocked && final(self).recv_waiters.waiters@
                        == old(self).recv_waiters.waiters@.push(pid),
                    None => r == RecvStep::Failed(IpcError::WouldBlock) && final(self).recv_waiters.waiters@ == old(self).recv_waiters.waiters@,
                }
            },
    {
        match self.buffer.pop() {
            Some(m) => {
                let woken = self.send_waiters.wake_one();
                RecvStep::Received(m, woken)
            },
            None => {
                if self.closed {
                    return RecvStep::Failed(IpcError::ChannelClosed);
                }
                match current {
                    Some(pid) => {
                        self.recv_waiters.wait(pid);
                        RecvStep::Blocked
                    },
                    None => RecvStep::Failed(IpcError::WouldBlock),
                }
            },
        }
    }

    /// Receives without waiting: the oldest message (waking the
    /// longest-waiting sender), else `ChannelClosed` on a closed channel and
    /// `WouldBlock` on an open one.
    pub fn try_recv(&mut self) -> (r: Result<(Message, Option<Pid>), IpcError>)
        requires
            old(self).wf(),
        ensures
            final(self).wf(),
            final(self).id == old(self).id,
            final(self).closed == old(self).closed,
            final(self).recv_waiters.waiters@ == old(self).recv_waiters.waiters@,
            old(self).buffer@.len() > 0 ==> final(self).buffer@ == old(self).buffer@.drop_first() && match r {
                Ok((m, w)) => m == old(self).buffer@[0] && if old(self).send_waiters.waiters@.len() == 0 {
                    w is None && final(self).send_waiters.waiters@ == old(self).send_waiters.waiters@
                } else {
                    w == Some(old(self).send_waiters.waiters@[0]) && final(self).send_waiters.waiters@
                        == old(self).send_waiters.waiters@.drop_first()
                },
                Err(_) => false,
            },
            old(self).buffer@.len() == 0 ==> final(self).buffer@ == old(self).buffer@ && final(self).send_waiters.waiters@ == old(self).send_waiters.waiters@ && r == Err::<(Message, Option<Pid>), IpcError>(
                if old(self).closed { IpcError::ChannelClosed } else { IpcError::WouldBlock },
            ),
    {
        match self.buffer.pop() {
            Some(m) => {
                let woken = self.send_waiters.wake_one();
                Ok((m, woken))
            },
            None => {
                if self.closed {
                    Err(IpcError::ChannelClosed)
                } else {
                    Err(IpcError::WouldBlock)
                }
            },
        }
    }

    /// Closes the channel and wakes every waiter: the senders, then the
    /// receivers, in the order they came.
    pub fn close(&mut self) -> (woken: Vec<Pid>)
        requires
            old(self).wf(),
        ensures
            final(self).wf(),
            final(self).closed,
            final(self).id == old(self).id,
            final(self).buffer@ == old(self).buffer@,
            woken@ == old(self).send_waiters.waiters@ + old(self).recv_waiters.waiters@,
            final(self).send_waiters.waiters@ == Seq::<Pid>::empty(),
            final(self).recv_waiters.waiters@ == Seq::<Pid>::empty(),
    {
        self.closed = true;
        let mut woken = self.send_waiters.wake_all();
        let mut rest = self.recv_waiters.wake_all();
        woken.append(&mut rest);
        woken
    }
}

/// The open channels, by id, and the next id to hand out.
pub struct ChannelTable {
    pub channels: Vec<Channel>,
    pub next_id: u64,
}

/// The index of the channel with `id`, if one is open.
pub open spec fn channel_index(channels: Seq<Channel>, id: u64) -> Option<int> {
    if exists|i: int| 0 <= i < channels.len() && channels[i].id == id {
        Some(choose|i: int| 0 <= i < channels.len() && channels[i].id == id)
    } else {
        None
    }
}

impl ChannelTable {
    /// Every channel well formed, ids distinct and below the next id.
    pub open spec fn wf(&self) -> bool {
        &&& forall|i: int| 0 <= i < self.channels@.len() ==> (#[trigger] self.channels@[i]).wf()
            && self.channels@[i].id < self.next_id
        &&& forall|i: int, j: int|
            0 <= i < j < self.channels@.len() ==> (#[trigger] self.channels@[i]).id != (#[trigger] self.channels@[j]).id
        &&& self.next_id >= 1
    }

    /// The ids of the open channels.
    pub open spec fn ids(&self) -> Set<u64> {
        Set::new(|id: u64| exists|i: int| 0 <= i < self.channels@.len() && self.channels@[i].id == id)
    }

    /// No channel open; ids are handed out from 1.
    pub fn new() -> (t: Self)
        ensures
            t.wf(),
            t.channels@.len() == 0,
            t.next_id == 1,
    {
        ChannelTable { channels: Vec::new(), next_id: 1 }
    }

    fn find(&self, id: u64) -> (r: Option<usize>)
        requires
            self.wf(),
        ensures
            match r {
                Some(i) => i < self.channels@.len() && self.channels@[i as int].id == id && channel_index(self.channels@, id)
                    == Some(i as int),
                None => channel_index(self.channels@, id) is None,
            },
    {
        let mut i: usize = 0;
        while i < self.channels.len()
            invariant
                self.wf(),
                i <= self.channels@.len(),
                forall|k: int| 0 <= k < i ==> self.channels@[k].id != id,
            decreases self.channels@.len() - i,
        {
            if self.channels[i].id == id {
                let ghost c = choose|k: int| 0 <= k < self.channels@.len() && self.channels@[k].id == id;
                assert(c == i) by {
                    if c != i {
                        if c < i {
                            assert(self.channels@[c].id != self.channels@[i as int].id);
                        } else {
                            assert(self.channels@[i as int].id != self.channels@[c].id);
                        }
                    }
                }
                return Some(i);
            }
            i = i + 1;
        }
        None
    }

    /// Opens a new channel under the next id and returns that id.
    pub fn create_channel(&mut self) -> (id: u64)
        requires
            old(self).wf(),
            old(self).next_id < u64::MAX,
        ensures
            final(self).wf(),
            id == old(self).next_id,
            final(self).next_id == old(self).next_id + 1,
            final(self).channels@.len() == old(self).channels@.len() + 1,
            final(self).channels@.subrange(0, old(self).channels@.len() as int) == old(self).channels@,
            ({
                let c = final(self).channels@[old(self).channels@.len() as int];
                &&& c.id == id && !c.closed && c.buffer@.len() == 0
                &&& c.send_waiters.waiters@.len() == 0 && c.recv_waiters.waiters@.len() == 0
            }),
            channel_index(final(self).channels@, id) == Some(old(self).channels@.len() as int),
    {
        let id = self.next_id;
        self.next_id = self.next_id + 1;
        let ghost before = self.channels@;
        self.channels.push(Channel::new(id));
        assert(self.channels@.subrange(0, before.len() as int) =~= before);
        proof {
            let n = before.len() as int;
            let c = choose|k: int| 0 <= k < self.channels@.len() && self.channels@[k].id == id;
            assert(self.channels@[n].id == id);
            assert(c == n) by {
                if c != n {
                    assert(self.channels@[c].id < id);
                }
            }
        }
        id
    }

    /// One attempt to send on channel `id`; `InvalidChannel` when no such
    /// channel is open.
    pub fn channel_send(&mut self, id: u64, msg: Message, current: Option<Pid>) -> (r: SendStep)
        requires
            old(self).wf(),
        ensures
            final(self).wf(),
            final(self).next_id == old(self).next_id,
            final(self).channels@.len() == old(self).channels@.len(),
            match channel_index(old(self).channels@, id) {
                None => r == SendStep::Failed(IpcError::InvalidChannel) && final(self).channels@ == old(self).channels@,
                Some(i) => forall|k: int| 0 <= k < old(self).channels@.len() && k != i ==> final(self).channels@[k]
                    == old(self).channels@[k],
            },
    {
        match self.find(id) {
            None => SendStep::Failed(IpcError::InvalidChannel),
            Some(i) => {
                let ghost before = self.channels@;
                let mut ch = self.channels.remove(i);
                let r = ch.send(msg, current);
                self.channels.insert(i, ch);
                proof {
                    assert forall|k: int| 0 <= k < before.len() && k != i implies self.channels@[k] == before[k] by {}
                    assert forall|a: int, b: int| 0 <= a < b < self.channels@.len() implies (#[trigger] self.channels@[a]).id
                        != (#[trigger] self.channels@[b]).id by {
                        assert(before[a].id != before[b].id);
                    }
                }
                r
            },
        }
    }

    /// One attempt to receive from channel `id`; `InvalidChannel` when no
    /// such channel is open.
    pub fn channel_recv(&mut self, id: u64, current: Option<Pid>) -> (r: RecvStep)
        requires
            old(self).wf(),
        ensures
            final(self).wf(),
            final(self).next_id == old(self).next_id,
            final(self).channels@.len() == old(self).channels@.len(),
            match channel_index(old(self).channels@, id) {
                None => r == RecvStep::Failed(IpcError::InvalidChannel) && final(self).channels@ == old(self).channels@,
                Some(i) => forall|k: int| 0 <= k < old(self).channels@.len() && k != i ==> final(self).channels@[k]
                    == old(self).channels@[k],
            },
    {
        match self.find(id) {
            None => RecvStep::Failed(IpcError::InvalidChannel),
            Some(i) => {
                let ghost before = self.channels@;
                let mut ch = self.channels.remove(i);
                let r = ch.recv(current);
                self.channels.insert(i, ch);
                proof {
                    assert forall|k: int| 0 <= k < before.len() && k != i implies self.channels@[k] == before[k] by {}
                    assert forall|a: int, b: int| 0 <= a < b < self.channels@.len() implies (#[trigger] self.channels@[a]).id
                        != (#[trigger] self.channels@[b]).id by {
                        assert(before[a].id != before[b].id);
                    }
                }
                r
            },
        }
    }

    /// Closes channel `id`, takes it out of the table and returns the
    /// processes it woke; nothing happens when no such channel is open.
    pub fn close_channel(&mut self, id: u64) -> (woken: Vec<Pid>)
        requires
            old(self).wf(),
        ensures
            final(self).wf(),
            final(self).next_id == old(self).next_id,
            match channel_index(old(self).channels@, id) {
                None => woken@.len() == 0 && final(self).channels@ == old(self).channels@,
                Some(i) => final(self).channels@ == old(self).channels@.remove(i) && woken@
                    == old(self).channels@[i].send_waiters.waiters@ + old(self).channels@[i].recv_waiters.waiters@,
            },
            !final(self).ids().contains(id),
    {
        match self.find(id) {
            None => {
                Vec::new()
            },
            Some(i) => {
                let ghost before = self.channels@;
                let mut ch = self.channels.remove(i);
                let woken = ch.close();
                proof {
                    assert forall|a: int, b: int| 0 <= a < b < self.channels@.len() implies (#[trigger] self.channels@[a]).id
                        != (#[trigger] self.channels@[b]).id by {
                        let a0 = if a < i { a } else { a + 1 };
                        let b0 = if b < i { b } else { b + 1 };
                        assert(before[a0].id != before[b0].id);
                    }
                    if self.ids().contains(id) {
                        let k = choose|k: int| 0 <= k < self.channels@.len() && self.channels@[k].id == id;
                        let k0 = if k < i { k } else { k + 1 };
                        if k0 < i {
                            assert(before[k0].id != before[i as int].id);
                        } else {
                            assert(before[i as int].id != before[k0].id);
                        }
                    }
                }
                woken
            },
        }
    }
}

/// A message sent on an open channel with room is the last one a later
/// receive on it gives back: the buffer is first in, first out.
pub proof fn lemma_send_then_receive_order(q: Seq<Message>, m: Message)
    ensures
        q.push(m).last() == m,
        q.len() > 0 ==> q.push(m).drop_first() == q.drop_first().push(m),
        q.len() == 0 ==> q.push(m)[0] == m,
{
    if q.len() > 0 {
        assert(q.push(m).drop_first() =~= q.drop_first().push(m));
    }
}

} // verus!
