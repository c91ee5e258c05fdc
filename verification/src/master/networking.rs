//! The requests that wait for an answer, and the topics that own them.
use super::accessing::Host;
use super::{usize_to_message, Error};
use crate::command::{
    checksum, frame_bytes, spec_checksum, spec_frame, Access, Command, MAX_COMMAND,
};
use crate::registers::{CommandError, SlaveSize, VirtualSize};
use std::collections::HashMap;
use vstd::prelude::*;
use vstd::slice::slice_to_vec;

verus! {

/// Identifier of a request that waits for its answer.
pub type Token = u16;

/// Address of data on the bus.
#[derive(Copy, Clone, Debug, PartialEq, Eq, Structural)]
pub enum Address {
    /// A register of the slave at a rank in the chain: rank, then register.
    Topological(u16, SlaveSize),
    /// A register of the slave with a fixed address: fixed address, then register.
    Fixed(u16, SlaveSize),
    /// An address in the virtual memory.
    Virtual(VirtualSize),
}

impl Address {
    /// The slave that the address names; none for the virtual memory.
    pub fn host(self) -> (host: Option<Host>)
        ensures
            host == match self {
                Address::Topological(slave, _) => Some(Host::Topological(slave)),
                Address::Fixed(slave, _) => Some(Host::Fixed(slave)),
                Address::Virtual(_) => None,
            },
    {
        match self {
            Address::Topological(slave, _) => Some(Host::Topological(slave)),
            Address::Fixed(slave, _) => Some(Host::Fixed(slave)),
            Address::Virtual(_) => None,
        }
    }

    /// The address as a header carries it.
    pub open spec fn spec_packed(self) -> crate::command::Address {
        match self {
            Address::Topological(slave, register) => crate::command::Address { slave, register },
            Address::Fixed(slave, register) => crate::command::Address { slave, register },
            Address::Virtual(global) => crate::command::Address::spec_from_u32(global),
        }
    }
}

/// The header of a request before it is first sent: no access chosen yet, nothing
/// executed, the kind of address set.
pub open spec fn spec_request(token: Token, address: Address, size: u16) -> Command {
    Command {
        token,
        access: Access {
            read: false,
            write: false,
            fixed: address is Fixed,
            topological: address is Topological,
            reserved: 0,
            error: false,
        },
        executed: 0,
        address: address.spec_packed(),
        size,
        checksum: 0,
    }
}

impl Command {
    /// The header of a command of `size` data bytes at `address`, with the access asked
    /// for: token 0, nothing executed, and no checksum yet.
    pub fn new(address: Address, read: bool, write: bool, size: u16) -> (command: Command)
        ensures
            command == (Command {
                access: Access { read, write, ..spec_request(0, address, size).access },
                ..spec_request(0, address, size)
            }),
    {
        let mut command = Command::default();
        command.access.read = read;
        command.access.write = write;
        command.size = size;
        command.executed = 0;
        match address {
            Address::Topological(slave, local) => {
                command.access.topological = true;
                command.address = crate::command::Address::new(slave, local);
            },
            Address::Fixed(slave, local) => {
                command.access.fixed = true;
                command.address = crate::command::Address::new(slave, local);
            },
            Address::Virtual(global) => {
                command.address = crate::command::Address::from(global);
            },
        }
        command
    }
}

/// The header of a request as it is sent with `data`: the access asked for, and the
/// checksum of the data.
pub open spec fn spec_sent(request: Command, read: bool, write: bool, data: Seq<u8>) -> Command {
    Command {
        checksum: spec_checksum(data),
        access: Access { read, write, ..request.access },
        ..request
    }
}

/// What the master keeps of a request until its topic is closed.
pub struct Pending {
    /// The header as last sent.
    pub command: Command,
    /// The data of the request: those given at first, then those of the last answer that
    /// was accepted.
    pub buffer: Vec<u8>,
    /// How the last answer ended, until the topic takes it.
    pub result: Option<Result<u8, Error>>,
}

/// The token `offset` places after `first`, counting round.
pub open spec fn token_after(first: Token, offset: int) -> Token {
    ((first + offset) % 0x1_0000) as Token
}

/// `token` is the first that is not in use, counting round from `first`.
pub open spec fn first_free(used: Set<Token>, first: Token, token: Token) -> bool {
    exists|offset: int|
        {
            &&& 0 <= offset < 0x1_0000
            &&& token == #[trigger] token_after(first, offset)
            &&& !used.contains(token)
            &&& forall|before: int|
                0 <= before < offset ==> used.contains(#[trigger] token_after(first, before))
        }
}

/// Every token is in use.
pub open spec fn all_used(used: Set<Token>) -> bool {
    forall|token: Token| used.contains(token)
}

/// An answer's header is one that the request sent can have become on its way: the same
/// token, kind of address, read flag and size, and the same address, but for the rank of
/// a topological address, which every slave changes.
pub open spec fn answers(sent: Command, received: Command) -> bool {
    &&& sent.token == received.token
    &&& sent.access.fixed == received.access.fixed
    &&& sent.access.topological == received.access.topological
    &&& sent.access.read == received.access.read
    &&& (sent.address == received.address || (received.access.topological
        && sent.address.register == received.address.register))
    &&& sent.size == received.size
}

/// How an answer ends a request: the number of slaves that executed it, or what was
/// wrong with the answer.
pub open spec fn spec_outcome(sent: Command, received: Command, data: Seq<u8>) -> Result<
    u8,
    Error,
> {
    if !answers(sent, received) {
        Err(Error::Master("response header mismatch"))
    } else if received.access.error {
        Err(Error::Slave(CommandError::Unknown))
    } else if received.checksum != spec_checksum(data) {
        Err(Error::Master("data checksum mismatch"))
    } else {
        Ok(received.executed)
    }
}

/// `rand::random` for `u16`: a token to start the search for a free one from. Nothing is
/// known of which it is.
#[verifier::external_body]
fn random_token() -> (first: Token) {
    rand::random::<u16>()
}

/// The requests of a master that wait for an answer, each under its token.
pub struct Master {
    pending: HashMap<Token, Pending>,
}

impl View for Master {
    type V = Map<Token, Pending>;

    closed spec fn view(&self) -> Map<Token, Pending> {
        self.pending@
    }
}

impl Master {
    /// A master that waits for nothing.
    pub fn new() -> (master: Master)
        ensures
            master@ == Map::<Token, Pending>::empty(),
    {
        Master { pending: HashMap::new() }
    }

    /// Whether a request waits under `token`.
    pub fn is_pending(&self, token: Token) -> (pending: bool)
        ensures
            pending == self@.contains_key(token),
    {
        broadcast use vstd::std_specs::hash::group_hash_axioms;

        self.pending.contains_key(&token)
    }

    /// The request that waits under `token`, if any.
    pub fn request(&self, token: Token) -> (request: Option<&Pending>)
        ensures
            request.is_some() == self@.contains_key(token),
            request matches Some(found) ==> *found == self@[token],
    {
        broadcast use vstd::std_specs::hash::group_hash_axioms;

        self.pending.get(&token)
    }

    /// Hands an answer that came from the bus to the request that waits for it.
    ///
    /// An answer whose token nobody waits for is dropped. Else the request under that
    /// token ends as `spec_outcome` says; where the answer is good, its data replace
    /// those of the request. The token returned is that of the topic to wake.
    pub fn deliver(&mut self, header: Command, data: &[u8]) -> (woken: Option<Token>)
        requires
            data@.len() == header.size,
        ensures
            !old(self)@.contains_key(header.token) ==> {
                &&& woken.is_none()
                &&& final(self)@ == old(self)@
            },
            old(self)@.contains_key(header.token) ==> {
                let request = old(self)@[header.token];
                let answered = final(self)@[header.token];
                let outcome = spec_outcome(request.command, header, data@);
                &&& woken == Some(header.token)
                &&& final(self)@.dom() == old(self)@.dom()
                &&& forall|other: Token|
                    other != header.token && old(self)@.contains_key(other) ==> final(self)@[other]
                        == old(self)@[other]
                &&& answered.command == request.command
                &&& answered.result == Some(outcome)
                &&& answered.buffer@ == if outcome.is_ok() {
                    data@
                } else {
                    request.buffer@
                }
            },
    {
        broadcast use vstd::std_specs::hash::group_hash_axioms;

        let token = header.token;
        let ghost before = self.pending@;
        match self.pending.remove(&token) {
            None => {
                assert(self.pending@ =~= before);
                None
            },
            Some(request) => {
                let sent = request.command;
                let matching = sent.token == header.token && sent.access.fixed
                    == header.access.fixed && sent.access.topological
                    == header.access.topological && sent.access.read == header.access.read && (
                (sent.address.slave == header.address.slave && sent.address.register
                    == header.address.register) || (header.access.topological
                    && sent.address.register == header.address.register)) && sent.size
                    == header.size;
                let answered = if !matching {
                    Pending {
                        command: sent,
                        buffer: request.buffer,
                        result: Some(Err(Error::Master("response header mismatch"))),
                    }
                } else if header.access.error {
                    Pending {
                        command: sent,
                        buffer: request.buffer,
                        result: Some(Err(Error::Slave(CommandError::Unknown))),
                    }
                } else if header.checksum != checksum(data) {
                    Pending {
                        command: sent,
                        buffer: request.buffer,
                        result: Some(Err(Error::Master("data checksum mismatch"))),
                    }
                } else {
                    Pending {
                        command: sent,
                        buffer: slice_to_vec(data),
                        result: Some(Ok(header.executed)),
                    }
                };
                self.pending.insert(token, answered);
                assert(self.pending@.dom() =~= before.dom());
                Some(token)
            },
        }
    }
}

/// A reserved token of a master: the handle of one request, which may be sent and
/// answered any number of times until the topic is closed.
pub struct Topic {
    token: Token,
}

impl Topic {
    /// The token that the topic owns.
    pub closed spec fn spec_token(&self) -> Token {
        self.token
    }

    /// The token that the topic owns.
    pub fn token(&self) -> (token: Token)
        ensures
            token == self.spec_token(),
    {
        self.token
    }

    /// Reserves the first free token, counting round from `first`, for a request of the
    /// data in `buffer` at `address`.
    ///
    /// Fails where the data are too long for a message, whatever the tokens, and where
    /// every token is in use; the master is then as it was.
    pub fn with_first(master: &mut Master, first: Token, address: Address, buffer: Vec<u8>) -> (made:
        Result<Topic, Error>)
        ensures
            made.is_ok() == (buffer@.len() <= MAX_COMMAND && !all_used(old(master)@.dom())),
            made matches Ok(topic) ==> {
                &&& first_free(old(master)@.dom(), first, topic.spec_token())
                &&& final(master)@ == old(master)@.insert(
                    topic.spec_token(),
                    Pending {
                        command: spec_request(
                            topic.spec_token(),
                            address,
                            buffer@.len() as u16,
                        ),
                        buffer,
                        result: None,
                    },
                )
            },
            made matches Err(e) ==> {
                &&& final(master)@ == old(master)@
                &&& if buffer@.len() > MAX_COMMAND {
                    e.is_master("data is longer than maximum allowed message")
                } else {
                    e.is_master("no free token")
                }
            },
    {
        broadcast use vstd::std_specs::hash::group_hash_axioms;

        let size = match usize_to_message(buffer.len()) {
            Ok(size) => size,
            Err(e) => {
                return Err(e);
            },
        };
        let ghost used = master.pending@.dom();
        let mut offset: u32 = 0;
        let mut found: Option<Token> = None;
        while offset < 0x1_0000 && found.is_none()
            invariant
                offset <= 0x1_0000,
                used == master.pending@.dom(),
                master.pending@ == old(master).pending@,
                found is None ==> forall|before: int|
                    0 <= before < offset ==> used.contains(#[trigger] token_after(first, before)),
                found matches Some(token) ==> first_free(used, first, token),
            decreases 0x1_0000 - offset + if found is None { 1int } else { 0int },
        {
            let candidate = first.wrapping_add(offset as u16);
            assert(candidate == token_after(first, offset as int));
            if !master.pending.contains_key(&candidate) {
                found = Some(candidate);
            } else {
                offset += 1;
            }
        }
        let token = match found {
            Some(token) => token,
            None => {
                proof {
                    assert forall|token: Token| used.contains(token) by {
                        let offset = (token - first + 0x1_0000) % 0x1_0000;
                        assert(token_after(first, offset) == token);
                    }
                }
                return Err(Error::Master("no free token"));
            },
        };
        proof {
            assert(!used.contains(token));
        }
        let mut command = Command::new(address, false, false, size);
        command.token = token;
        assert(command == spec_request(token, address, buffer@.len() as u16));
        master.pending.insert(token, Pending { command, buffer, result: None });
        Ok(Topic { token })
    }

    /// Reserves a free token for a request of the data in `buffer` at `address`.
    ///
    /// The search for a free token starts from a random one: a token that an earlier
    /// request used is then less likely to be taken again at once, and a stale frame less
    /// likely to be taken for an answer.
    pub fn new(master: &mut Master, address: Address, buffer: Vec<u8>) -> (made: Result<
        Topic,
        Error,
    >)
        ensures
            made.is_ok() == (buffer@.len() <= MAX_COMMAND && !all_used(old(master)@.dom())),
            made matches Ok(topic) ==> {
                &&& !old(master)@.contains_key(topic.spec_token())
                &&& final(master)@ == old(master)@.insert(
                    topic.spec_token(),
                    Pending {
                        command: spec_request(
                            topic.spec_token(),
                            address,
                            buffer@.len() as u16,
                        ),
                        buffer,
                        result: None,
                    },
                )
            },
            made matches Err(e) ==> {
                &&& final(master)@ == old(master)@
                &&& if buffer@.len() > MAX_COMMAND {
                    e.is_master("data is longer than maximum allowed message")
                } else {
                    e.is_master("no free token")
                }
            },
    {
        let first = random_token();
        Topic::with_first(master, first, address, buffer)
    }

    /// Builds the frame that sends the request, and notes in the master what was sent.
    ///
    /// The data sent are `data`, or those of the request where `data` is `None`; the
    /// header gets their checksum and the access asked for. The data of the request stay
    /// as they are.
    pub fn send(&self, master: &mut Master, read: bool, write: bool, data: Option<&[u8]>) -> (frame:
        Vec<u8>)
        requires
            old(master)@.contains_key(self.spec_token()),
        ensures
            ({
                let request = old(master)@[self.spec_token()];
                let sent = match data {
                    Some(given) => given@,
                    None => request.buffer@,
                };
                let command = spec_sent(request.command, read, write, sent);
                &&& frame@ == spec_frame(command, sent)
                &&& final(master)@ == old(master)@.insert(
                    self.spec_token(),
                    Pending { command, buffer: request.buffer, result: request.result },
                )
            }),
    {
        broadcast use vstd::std_specs::hash::group_hash_axioms;

        let ghost before = master.pending@;
        let removed = master.pending.remove(&self.token);
        assert(removed.is_some());
        let request = removed.unwrap();
        let mut command = request.command;
        command.checksum =
        match data {
            Some(given) => checksum(given),
            None => checksum(request.buffer.as_slice()),
        };
        command.access.read = read;
        command.access.write = write;
        let frame = match data {
            Some(given) => frame_bytes(&command, given),
            None => frame_bytes(&command, request.buffer.as_slice()),
        };
        let sent = Pending { command, buffer: request.buffer, result: request.result };
        master.pending.insert(self.token, sent);
        assert(master.pending@ =~= before.insert(self.token, sent));
        frame
    }

    /// Takes the end of the request, where an answer came since it was last taken.
    ///
    /// `None` says that the request still waits. How long to wait is for the caller to
    /// say.
    pub fn receive(&self, master: &mut Master) -> (taken: Option<Result<u8, Error>>)
        requires
            old(master)@.contains_key(self.spec_token()),
        ensures
            taken == old(master)@[self.spec_token()].result,
            final(master)@ == old(master)@.insert(
                self.spec_token(),
                Pending {
                    command: old(master)@[self.spec_token()].command,
                    buffer: old(master)@[self.spec_token()].buffer,
                    result: None,
                },
            ),
    {
        broadcast use vstd::std_specs::hash::group_hash_axioms;

        let ghost before = master.pending@;
        let removed = master.pending.remove(&self.token);
        assert(removed.is_some());
        let request = removed.unwrap();
        let taken = request.result;
        let waiting = Pending { command: request.command, buffer: request.buffer, result: None };
        master.pending.insert(self.token, waiting);
        assert(master.pending@ =~= before.insert(self.token, waiting));
        taken
    }

    /// Copies the data of the request as they are now, answered or not, taken or not.
    pub fn get(&self, master: &Master, dst: &mut [u8])
        requires
            master@.contains_key(self.spec_token()),
            old(dst)@.len() == master@[self.spec_token()].buffer@.len(),
        ensures
            final(dst)@ == master@[self.spec_token()].buffer@,
    {
        broadcast use vstd::std_specs::hash::group_hash_axioms;

        let found = master.pending.get(&self.token);
        assert(found.is_some());
        let request = found.unwrap();
        let mut i: usize = 0;
        while i < request.buffer.len()
            invariant
                i <= request.buffer@.len(),
                dst@.len() == request.buffer@.len(),
                forall|k: int| 0 <= k < i ==> dst@[k] == request.buffer@[k],
            decreases request.buffer@.len() - i,
        {
            dst[i] = request.buffer[i];
            i += 1;
        }
        assert(dst@ =~= request.buffer@);
    }

    /// The data of the request as they are now.
    pub fn buffer<'m>(&self, master: &'m Master) -> (data: &'m [u8])
        requires
            master@.contains_key(self.spec_token()),
        ensures
            data@ == master@[self.spec_token()].buffer@,
    {
        broadcast use vstd::std_specs::hash::group_hash_axioms;

        let found = master.pending.get(&self.token);
        assert(found.is_some());
        found.unwrap().buffer.as_slice()
    }

    /// Gives the token back: the master forgets the request.
    pub fn close(self, master: &mut Master)
        ensures
            final(master)@ == old(master)@.remove(self.spec_token()),
    {
        broadcast use vstd::std_specs::hash::group_hash_axioms;

        master.pending.remove(&self.token);
    }
}

/// A request that was opened and closed again leaves the master as it was, so that its
/// token is free for the next.
pub proof fn lemma_closed_topic_leaves_nothing(
    before: Map<Token, Pending>,
    token: Token,
    request: Pending,
)
    requires
        !before.contains_key(token),
    ensures
        before.insert(token, request).remove(token) == before,
        !before.insert(token, request).remove(token).contains_key(token),
{
    assert(before.insert(token, request).remove(token) =~= before);
}

} // verus!
