use crate::error::Error;
use vstd::prelude::*;

verus! {

/// An entry of the command log: a command to a sub-client has been
/// given, or has come to its end.
#[derive(Debug, Clone, Copy, PartialEq, Eq, Structural)]
pub enum CommandEvent {
    Start { client: usize },
    End { client: usize },
}

/// Whether `client` has a command that has not ended after the first `n`
/// entries of `log`.
pub open spec fn running(log: Seq<CommandEvent>, client: usize, n: int) -> bool
    decreases n,
{
    if n <= 0 {
        false
    } else {
        match log[n - 1] {
            CommandEvent::Start { client: c } => c == client || running(log, client, n - 1),
            CommandEvent::End { client: c } => c != client && running(log, client, n - 1),
        }
    }
}

/// Entry `n` of `log` is in order: a command starts only at a sub-client
/// that has none running, and ends only at one that has.
pub open spec fn orderly_at(log: Seq<CommandEvent>, n: int) -> bool {
    match log[n] {
        CommandEvent::Start { client } => !running(log, client, n),
        CommandEvent::End { client } => running(log, client, n),
    }
}

/// Every entry of `log` is in order.
pub open spec fn orderly(log: Seq<CommandEvent>) -> bool {
    forall|n: int| 0 <= n < log.len() ==> #[trigger] orderly_at(log, n)
}

proof fn lemma_running_prefix(log: Seq<CommandEvent>, longer: Seq<CommandEvent>, client: usize, n: int)
    requires
        0 <= n <= log.len(),
        log.len() <= longer.len(),
        forall|i: int| 0 <= i < log.len() ==> log[i] == longer[i],
    ensures
        running(log, client, n) == running(longer, client, n),
    decreases n,
{
    if n > 0 {
        lemma_running_prefix(log, longer, client, n - 1);
    }
}

proof fn lemma_finds_end(log: Seq<CommandEvent>, client: usize, m: int, n: int)
    requires
        0 <= m <= n <= log.len(),
        running(log, client, m),
        !running(log, client, n),
    ensures
        exists|k: int| m <= k < n && #[trigger] log[k] == (CommandEvent::End { client }),
    decreases n - m,
{
    if log[n - 1] != (CommandEvent::End { client }) {
        lemma_finds_end(log, client, m, n - 1);
    }
}

/// In an orderly log two commands to one sub-client never overlap:
/// between the starts of any two of them the first one ends.
pub proof fn lemma_no_overlap(log: Seq<CommandEvent>, client: usize, i: int, j: int)
    requires
        orderly(log),
        0 <= i < j < log.len(),
        log[i] == (CommandEvent::Start { client }),
        log[j] == (CommandEvent::Start { client }),
    ensures
        exists|k: int| i < k < j && #[trigger] log[k] == (CommandEvent::End { client }),
{
    assert(orderly_at(log, j));
    assert(running(log, client, i + 1));
    lemma_finds_end(log, client, i + 1, j);
}

/// One command slot per sub-client, and the log of what was begun and
/// finished. A sub-client takes a new command only when its slot is free.
#[derive(Debug)]
pub struct CommandSlots {
    busy: Vec<bool>,
    log: Vec<CommandEvent>,
}

impl CommandSlots {
    /// The number of sub-clients.
    pub closed spec fn clients(&self) -> nat {
        self.busy@.len()
    }

    /// The log of the commands begun and finished so far.
    pub closed spec fn events(&self) -> Seq<CommandEvent> {
        self.log@
    }

    /// Whether the slot of `client` is taken.
    pub closed spec fn taken(&self, client: int) -> bool {
        self.busy@[client]
    }

    /// The log is orderly, and a slot is taken exactly where the log has
    /// a running command for its sub-client.
    pub open spec fn wf(&self) -> bool {
        &&& orderly(self.events())
        &&& forall|c: usize|
            0 <= c < self.clients() ==> self.taken(c as int) == #[trigger] running(
                self.events(),
                c,
                self.events().len() as int,
            )
    }

    #[verifier::type_invariant]
    spec fn inv(&self) -> bool {
        self.wf()
    }

    /// Free slots for `clients` sub-clients, with an empty log.
    pub fn new(clients: usize) -> (slots: Self)
        ensures
            slots.wf(),
            slots.clients() == clients,
            slots.events() == Seq::<CommandEvent>::empty(),
    {
        let mut busy: Vec<bool> = Vec::new();
        let mut c: usize = 0;
        while c < clients
            invariant
                c <= clients,
                busy.len() == c,
                forall|d: int| 0 <= d < c ==> !busy[d],
            decreases clients - c,
        {
            busy.push(false);
            c += 1;
        }
        CommandSlots { busy, log: Vec::new() }
    }

    /// Whether `client` has a command that has not ended. A number that
    /// no sub-client has is never busy.
    pub fn is_busy(&self, client: usize) -> (busy: bool)
        ensures
            self.wf(),
            busy == (client < self.clients() && running(self.events(), client, self.events().len() as int)),
    {
        proof {
            use_type_invariant(self);
        }
        client < self.busy.len() && self.busy[client]
    }

    /// The log of the commands begun and finished so far.
    pub fn log(&self) -> (log: &Vec<CommandEvent>)
        ensures
            self.wf(),
            log@ == self.events(),
    {
        proof {
            use_type_invariant(self);
        }
        &self.log
    }

    /// Takes the slot of `client` for a new command and logs its start.
    /// Fails, and changes nothing, where the sub-client still has a
    /// command running.
    pub fn begin(&mut self, client: usize) -> (begun: Result<(), Error>)
        ensures
            old(self).wf(),
            final(self).wf(),
            final(self).clients() == old(self).clients(),
            match begun {
                Ok(_) => {
                    &&& client < old(self).clients()
                    &&& !running(old(self).events(), client, old(self).events().len() as int)
                    &&& final(self).events() == old(self).events().push(CommandEvent::Start { client })
                },
                Err(e) => {
                    &&& final(self).events() == old(self).events()
                    &&& if client >= old(self).clients() {
                        e == (Error::NoClient { client })
                    } else {
                        &&& running(old(self).events(), client, old(self).events().len() as int)
                        &&& e == (Error::Busy { client })
                    }
                },
            },
    {
        proof {
            use_type_invariant(&*self);
        }
        if client >= self.busy.len() {
            return Err(Error::NoClient { client });
        }
        if self.busy[client] {
            return Err(Error::Busy { client });
        }
        let ghost before = self.log@;
        let ghost taken = self.busy@;
        let mut busy: Vec<bool> = Vec::new();
        let mut log: Vec<CommandEvent> = Vec::new();
        core::mem::swap(&mut self.busy, &mut busy);
        core::mem::swap(&mut self.log, &mut log);
        busy.set(client, true);
        log.push(CommandEvent::Start { client });
        proof {
            let after = log@;
            lemma_extended(before, after);
            assert forall|n: int| 0 <= n < after.len() implies #[trigger] orderly_at(after, n) by {
                if n < before.len() {
                    assert(orderly_at(before, n));
                }
            }
            assert forall|c: usize| 0 <= c < busy.len() implies busy@[c as int] == #[trigger] running(
                after,
                c,
                after.len() as int,
            ) by {
                assert(taken[c as int] == running(before, c, before.len() as int));
                assert(running(after, c, before.len() as int) == running(before, c, before.len() as int));
            }
        }
        core::mem::swap(&mut self.log, &mut log);
        core::mem::swap(&mut self.busy, &mut busy);
        Ok(())
    }

    /// Frees the slot of `client` and logs the end of its command. Fails,
    /// and changes nothing, where the sub-client has no command running.
    pub fn finish(&mut self, client: usize) -> (finished: Result<(), Error>)
        ensures
            old(self).wf(),
            final(self).wf(),
            final(self).clients() == old(self).clients(),
            match finished {
                Ok(_) => {
                    &&& client < old(self).clients()
                    &&& running(old(self).events(), client, old(self).events().len() as int)
                    &&& final(self).events() == old(self).events().push(CommandEvent::End { client })
                },
                Err(e) => {
                    &&& final(self).events() == old(self).events()
                    &&& if client >= old(self).clients() {
                        e == (Error::NoClient { client })
                    } else {
                        &&& !running(old(self).events(), client, old(self).events().len() as int)
                        &&& e == (Error::Idle { client })
                    }
                },
            },
    {
        proof {
            use_type_invariant(&*self);
        }
        if client >= self.busy.len() {
            return Err(Error::NoClient { client });
        }
        if !self.busy[client] {
            return Err(Error::Idle { client });
        }
        let ghost before = self.log@;
        let ghost taken = self.busy@;
        let mut busy: Vec<bool> = Vec::new();
        let mut log: Vec<CommandEvent> = Vec::new();
        core::mem::swap(&mut self.busy, &mut busy);
        core::mem::swap(&mut self.log, &mut log);
        busy.set(client, false);
        log.push(CommandEvent::End { client });
        proof {
            let after = log@;
            lemma_extended(before, after);
            assert forall|n: int| 0 <= n < after.len() implies #[trigger] orderly_at(after, n) by {
                if n < before.len() {
                    assert(orderly_at(before, n));
                }
            }
            assert forall|c: usize| 0 <= c < busy.len() implies busy@[c as int] == #[trigger] running(
                after,
                c,
                after.len() as int,
            ) by {
                assert(taken[c as int] == running(before, c, before.len() as int));
                assert(running(after, c, before.len() as int) == running(before, c, before.len() as int));
            }
        }
        core::mem::swap(&mut self.log, &mut log);
        core::mem::swap(&mut self.busy, &mut busy);
        Ok(())
    }
}

proof fn lemma_extended(log: Seq<CommandEvent>, longer: Seq<CommandEvent>)
    requires
        longer.len() == log.len() + 1,
        forall|i: int| 0 <= i < log.len() ==> log[i] == longer[i],
    ensures
        forall|c: usize, n: int| 0 <= n <= log.len() ==> #[trigger] running(longer, c, n) == running(log, c, n),
        forall|n: int| 0 <= n < log.len() ==> orderly_at(longer, n) == #[trigger] orderly_at(log, n),
{
    assert forall|c: usize, n: int| 0 <= n <= log.len() implies #[trigger] running(longer, c, n) == running(
        log,
        c,
        n,
    ) by {
        lemma_running_prefix(log, longer, c, n);
    }
}

} // verus!
