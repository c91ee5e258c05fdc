//! Addressees of commands and the answers to them.
use super::networking::{
    all_used, spec_request, spec_sent, Address, Master, Pending, Token, Topic,
};
use super::Error;
use crate::command::{spec_frame, MAX_COMMAND};
use crate::pack::Packed;
use crate::registers::{Register, SlaveRegister, SlaveSize, VirtualRegister, VirtualSize};
use vstd::prelude::*;

verus! {

/// The data that came back and the number of slaves that executed the command.
pub struct Answer<T> {
    /// Data received. Where no slave executed the command they are as they were sent.
    pub data: T,
    /// Number of slaves that executed the command.
    pub executed: u8,
}

impl<T> Answer<T> {
    /// The data, where at least one slave executed the command.
    pub fn any(self) -> (data: Result<T, Error>)
        ensures
            data.is_ok() == (self.executed != 0),
            data matches Ok(d) ==> d == self.data,
            data matches Err(e) ==> e.is_master("no slave answered"),
    {
        if self.executed == 0 {
            return Err(Error::Master("no slave answered"));
        }
        Ok(self.data)
    }

    /// The data, where exactly `executed` slaves executed the command.
    pub fn exact(self, executed: u8) -> (data: Result<T, Error>)
        ensures
            data.is_ok() == (self.executed == executed),
            data matches Ok(d) ==> d == self.data,
            data matches Err(e) ==> if self.executed == 0 {
                e.is_master("no slave answered")
            } else {
                e.is_master("incorrect number of answers")
            },
    {
        if self.executed != executed {
            if self.executed == 0 {
                return Err(Error::Master("no slave answered"));
            } else {
                return Err(Error::Master("incorrect number of answers"));
            }
        }
        Ok(self.data)
    }

    /// The data, where exactly one slave executed the command.
    pub fn one(self) -> (data: Result<T, Error>)
        ensures
            data.is_ok() == (self.executed == 1),
            data matches Ok(d) ==> d == self.data,
            data matches Err(e) ==> if self.executed == 0 {
                e.is_master("no slave answered")
            } else {
                e.is_master("incorrect number of answers")
            },
    {
        self.exact(1)
    }

    /// The data, where exactly one slave executed the command. The same as `one`.
    pub fn once(self) -> (data: Result<T, Error>)
        ensures
            data.is_ok() == (self.executed == 1),
            data matches Ok(d) ==> d == self.data,
            data matches Err(e) ==> if self.executed == 0 {
                e.is_master("no slave answered")
            } else {
                e.is_master("incorrect number of answers")
            },
    {
        self.exact(1)
    }
}

/// A slave on the bus, named by its rank or by its fixed address.
#[derive(Copy, Clone, Debug, PartialEq, Eq, Hash, Structural)]
pub enum Host {
    /// The slave at this rank in the chain, the first being at rank 0.
    Topological(SlaveSize),
    /// The slave whose fixed address is this.
    Fixed(SlaveSize),
}

impl Host {
    /// The address of a register of this slave.
    pub open spec fn spec_at(self, memory: SlaveSize) -> Address {
        match self {
            Host::Topological(slave) => Address::Topological(slave, memory),
            Host::Fixed(slave) => Address::Fixed(slave, memory),
        }
    }

    /// The address of a register of this slave.
    pub fn at(self, memory: SlaveSize) -> (address: Address)
        ensures
            address == self.spec_at(memory),
    {
        match self {
            Host::Topological(slave) => Address::Topological(slave, memory),
            Host::Fixed(slave) => Address::Fixed(slave, memory),
        }
    }
}

/// `size` bytes of zero.
fn zeroed(size: usize) -> (bytes: Vec<u8>)
    ensures
        bytes@ == Seq::new(size as nat, |i: int| 0u8),
{
    let mut bytes: Vec<u8> = Vec::new();
    let mut i: usize = 0;
    while i < size
        invariant
            i <= size,
            bytes@ == Seq::new(i as nat, |k: int| 0u8),
        decreases size - i,
    {
        bytes.push(0);
        assert(bytes@ =~= Seq::new((i + 1) as nat, |k: int| 0u8));
        i += 1;
    }
    bytes
}

/// A topic for one register: a token reserved for as long as the stream lives, on which
/// values of the register are sent and received any number of times.
///
/// Sending and receiving are apart: a value may be sent without waiting for the answer,
/// and the answers taken later.
pub struct Stream<T, A = VirtualSize> {
    register: Register<T, A>,
    topic: Topic,
}

impl<T: Packed> Stream<T, SlaveSize> {
    /// Opens a stream on a register of a slave. Its data are zero until an answer comes.
    ///
    /// Fails for a register too long for a message, and where every token is in use;
    /// the master is then as it was.
    pub fn new(master: &mut Master, host: Host, register: SlaveRegister<T>) -> (made: Result<
        Self,
        Error,
    >)
        ensures
            made.is_ok() == (T::spec_size() <= MAX_COMMAND && !all_used(old(master)@.dom())),
            made matches Ok(stream) ==> {
                &&& stream.opened(
                    old(master),
                    final(master),
                    host.spec_at(register.spec_address()),
                )
                &&& stream.spec_register() == register
            },
            made matches Err(e) ==> {
                &&& final(master)@ == old(master)@
                &&& if T::spec_size() > MAX_COMMAND {
                    e.is_master("data is longer than maximum allowed message")
                } else {
                    e.is_master("no free token")
                }
            },
    {
        let address = host.at(register.address());
        match Topic::new(master, address, zeroed(T::size())) {
            Ok(topic) => {
                let stream = Stream { register, topic };
                assert(final(master)@.remove(stream.spec_token()) =~= old(master)@);
                Ok(stream)
            },
            Err(e) => Err(e),
        }
    }
}

impl<T: Packed> Stream<T, VirtualSize> {
    /// Opens a stream on a register of the virtual memory. Its data are zero until an
    /// answer comes.
    ///
    /// Fails for a register too long for a message, and where every token is in use;
    /// the master is then as it was.
    pub fn new(master: &mut Master, register: VirtualRegister<T>) -> (made: Result<Self, Error>)
        ensures
            made.is_ok() == (T::spec_size() <= MAX_COMMAND && !all_used(old(master)@.dom())),
            made matches Ok(stream) ==> {
                &&& stream.opened(
                    old(master),
                    final(master),
                    Address::Virtual(register.spec_address()),
                )
                &&& stream.spec_register() == register
            },
            made matches Err(e) ==> {
                &&& final(master)@ == old(master)@
                &&& if T::spec_size() > MAX_COMMAND {
                    e.is_master("data is longer than maximum allowed message")
                } else {
                    e.is_master("no free token")
                }
            },
    {
        let address = Address::Virtual(register.address());
        match Topic::new(master, address, zeroed(T::size())) {
            Ok(topic) => {
                let stream = Stream { register, topic };
                assert(final(master)@.remove(stream.spec_token()) =~= old(master)@);
                Ok(stream)
            },
            Err(e) => Err(e),
        }
    }
}

impl<T: Packed, A: Copy> Stream<T, A> {
    /// The register that is streamed.
    pub closed spec fn spec_register(&self) -> Register<T, A> {
        self.register
    }

    /// The token that the stream owns.
    pub closed spec fn spec_token(&self) -> Token {
        self.topic.spec_token()
    }

    /// The stream is open in `master`, with as many data bytes as the register has.
    pub open spec fn wf(&self, master: &Master) -> bool {
        &&& master@.contains_key(self.spec_token())
        &&& master@[self.spec_token()].command.size == T::spec_size()
        &&& master@[self.spec_token()].buffer@.len() == T::spec_size()
    }

    /// The stream was opened at `address` in `before`, which gave `after`: a token that
    /// was free holds the new request, with zero data and nothing answered.
    pub open spec fn opened(&self, before: &Master, after: &Master, address: Address) -> bool {
        let request = after@[self.spec_token()];
        &&& self.wf(after)
        &&& !before@.contains_key(self.spec_token())
        &&& after@.remove(self.spec_token()) == before@
        &&& request.command == spec_request(self.spec_token(), address, T::spec_size() as u16)
        &&& request.buffer@ == Seq::new(T::spec_size(), |i: int| 0u8)
        &&& request.result is None
    }

    /// The register that is streamed.
    pub fn register(&self) -> (register: Register<T, A>)
        ensures
            register == self.spec_register(),
    {
        self.register
    }

    /// The token that the stream owns.
    pub fn token(&self) -> (token: Token)
        ensures
            token == self.spec_token(),
    {
        self.topic.token()
    }

    /// Whether the stream is open in `master`, with as many data bytes as the register
    /// has.
    pub fn is_open(&self, master: &Master) -> (open: bool)
        ensures
            open == self.wf(master),
    {
        match master.request(self.topic.token()) {
            Some(request) => request.command.size as usize == T::size() && request.buffer.len()
                == T::size(),
            None => false,
        }
    }

    /// Takes the end of the last command, where an answer came since it was last taken,
    /// with the value that the data of the stream then hold.
    ///
    /// `None` says that no answer came. How long to wait is for the caller to say.
    pub fn receive(&self, master: &mut Master) -> (taken: Option<Result<Answer<T>, Error>>)
        requires
            self.wf(old(master)),
        ensures
            self.wf(final(master)),
            final(master)@ == old(master)@.insert(
                self.spec_token(),
                Pending {
                    command: old(master)@[self.spec_token()].command,
                    buffer: old(master)@[self.spec_token()].buffer,
                    result: None,
                },
            ),
            match old(master)@[self.spec_token()].result {
                None => taken is None,
                Some(Err(e)) => taken == Some(Err::<Answer<T>, Error>(e)),
                Some(Ok(executed)) => taken == Some(
                    Ok::<Answer<T>, Error>(
                        Answer {
                            data: T::spec_unpack(old(master)@[self.spec_token()].buffer@),
                            executed,
                        },
                    ),
                ),
            },
    {
        match self.topic.receive(master) {
            None => None,
            Some(Err(e)) => Some(Err(e)),
            Some(Ok(executed)) => Some(
                Ok(Answer { data: T::unpack(self.topic.buffer(master)), executed }),
            ),
        }
    }

    /// The value that the data of the stream hold now, whether an answer came or not.
    pub fn get(&self, master: &Master) -> (value: T)
        requires
            self.wf(master),
        ensures
            value == T::spec_unpack(master@[self.spec_token()].buffer@),
    {
        T::unpack(self.topic.buffer(master))
    }

    /// Builds the frame that writes `value` to the register. The data of the stream
    /// stay as they are.
    pub fn send_write(&self, master: &mut Master, value: T) -> (frame: Vec<u8>)
        requires
            self.wf(old(master)),
        ensures
            self.wf(final(master)),
            self.sent(old(master), final(master), false, true, value.spec_pack(), frame@),
    {
        let data = value.pack();
        self.topic.send(master, false, true, Some(data.as_slice()))
    }

    /// Builds the frame that reads the register. The data of the stream stay as they
    /// are.
    pub fn send_read(&self, master: &mut Master) -> (frame: Vec<u8>)
        requires
            self.wf(old(master)),
        ensures
            self.wf(final(master)),
            self.sent(
                old(master),
                final(master),
                true,
                false,
                Seq::new(T::spec_size(), |i: int| 0u8),
                frame@,
            ),
    {
        let data = zeroed(T::size());
        self.topic.send(master, true, false, Some(data.as_slice()))
    }

    /// Builds the frame that reads the register and then writes `value` to it. The data
    /// of the stream stay as they are.
    pub fn send_exchange(&self, master: &mut Master, value: T) -> (frame: Vec<u8>)
        requires
            self.wf(old(master)),
        ensures
            self.wf(final(master)),
            self.sent(old(master), final(master), true, true, value.spec_pack(), frame@),
    {
        let data = value.pack();
        self.topic.send(master, true, true, Some(data.as_slice()))
    }

    /// `frame` sends `data` on the stream with the access asked for, and `after` is
    /// `before` with that noted.
    pub open spec fn sent(
        &self,
        before: &Master,
        after: &Master,
        read: bool,
        write: bool,
        data: Seq<u8>,
        frame: Seq<u8>,
    ) -> bool {
        let request = before@[self.spec_token()];
        let command = spec_sent(request.command, read, write, data);
        &&& frame == spec_frame(command, data)
        &&& after@ == before@.insert(
            self.spec_token(),
            Pending { command, buffer: request.buffer, result: request.result },
        )
    }

    /// Closes the stream: the master forgets the request and the token is free again.
    pub fn close(self, master: &mut Master)
        ensures
            final(master)@ == old(master)@.remove(self.spec_token()),
    {
        self.topic.close(master)
    }
}

} // verus!
