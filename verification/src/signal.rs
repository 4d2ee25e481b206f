//! The pin capabilities the master is built from, and two verified
//! in-memory pins for exercising the bus without hardware.
//!
//! Each line the master owns is modelled by a ghost trace: for an output
//! line, the history of levels commanded on it (`true` = high); for an
//! input line, the history of levels successfully sampled from it. The
//! contracts of `Spi` speak entirely about these traces.

use vstd::prelude::*;

verus! {

/// A digital output line: the capability to drive it high (`true`) or low
/// (`false`). `driven` is the history of levels commanded on the line,
/// oldest first. The master ignores drive failures of the underlying
/// hardware, so a fallible pin is adapted by swallowing its error; the
/// trace records what was commanded either way.
pub trait OutputSignal: Sized {
    /// An impl that leaves `driven` at its default has an empty trace
    /// throughout; a pin that means to expose its history overrides it.
    open spec fn driven(&self) -> Seq<bool> {
        Seq::empty()
    }

    fn drive(&mut self, level: bool)
        ensures
            final(self).driven() == old(self).driven().push(level),
    ;
}

/// A digital input line: the capability to sample its level, which may
/// fail with the hardware's own error. `taken` is the history of levels
/// successfully sampled; a failed read leaves it unchanged.
pub trait InputSignal: Sized {
    type Error;

    /// An impl that leaves `taken` at its default has an empty trace
    /// throughout; a pin that means to expose its history overrides it.
    open spec fn taken(&self) -> Seq<bool> {
        Seq::empty()
    }

    fn read(&mut self) -> (r: Result<bool, Self::Error>)
        ensures
            (r matches Ok(level) ==> final(self).taken() == old(self).taken().push(level)),
            r is Err ==> final(self).taken() == old(self).taken(),
    ;
}

/// The drive trace of an optional output line; an absent line has an
/// empty trace.
pub open spec fn driven_of<P: OutputSignal>(line: Option<P>) -> Seq<bool> {
    match line {
        Option::Some(pin) => pin.driven(),
        Option::None => Seq::empty(),
    }
}

/// The sample trace of an optional input line; an absent line has an
/// empty trace.
pub open spec fn taken_of<P: InputSignal>(line: Option<P>) -> Seq<bool> {
    match line {
        Option::Some(pin) => pin.taken(),
        Option::None => Seq::empty(),
    }
}

/// `t1` is `t0` with zero or more entries appended.
pub open spec fn trace_extends(t0: Seq<bool>, t1: Seq<bool>) -> bool {
    t1.len() >= t0.len() && t1.take(t0.len() as int) == t0
}

/// The entries `t1` holds beyond `t0`.
pub open spec fn trace_added(t0: Seq<bool>, t1: Seq<bool>) -> Seq<bool> {
    t1.skip(t0.len() as int)
}

/// One more successful sample keeps a trace an extension and appends the
/// sampled level to what was added.
pub proof fn lemma_sample_step(t0: Seq<bool>, t1: Seq<bool>, level: bool)
    requires
        trace_extends(t0, t1),
    ensures
        trace_extends(t0, t1.push(level)),
        trace_added(t0, t1.push(level)) == trace_added(t0, t1).push(level),
{
    assert(t1.push(level).take(t0.len() as int) =~= t1.take(t0.len() as int));
    assert(t1.push(level).skip(t0.len() as int) =~= t1.skip(t0.len() as int).push(level));
}

/// Drives the line if it is present; an absent line is left untouched.
pub(crate) fn drive_opt<P: OutputSignal>(line: &mut Option<P>, level: bool)
    ensures
        *old(line) is None ==> *final(line) == *old(line),
        *old(line) is Some ==> (*final(line) is Some && driven_of(*final(line))
            == driven_of(*old(line)).push(level)),
{
    match line {
        Option::Some(pin) => pin.drive(level),
        Option::None => {}
    }
}

/// Samples the line if it is present: `None` if the line is absent,
/// otherwise the outcome of the read.
pub(crate) fn read_opt<P: InputSignal>(line: &mut Option<P>) -> (r: Option<
    Result<bool, P::Error>,
>)
    ensures
        *final(line) is Some <==> *old(line) is Some,
        r is Some <==> *old(line) is Some,
        *old(line) is None ==> *final(line) == *old(line),
        (match r {
            Option::Some(Result::Ok(level)) => taken_of(*final(line)) == taken_of(
                *old(line),
            ).push(level),
            _ => taken_of(*final(line)) == taken_of(*old(line)),
        }),
{
    match line {
        Option::Some(pin) => Option::Some(pin.read()),
        Option::None => Option::None,
    }
}

/// An output pin that just records the levels driven on it, for tests and
/// for running the master without hardware.
pub struct RecordPin {
    pub log: Vec<bool>,
}

impl RecordPin {
    pub fn new() -> (r: RecordPin)
        ensures
            r.log@ == Seq::<bool>::empty(),
    {
        RecordPin { log: Vec::new() }
    }
}

impl OutputSignal for RecordPin {
    open spec fn driven(&self) -> Seq<bool> {
        self.log@
    }

    fn drive(&mut self, level: bool) {
        self.log.push(level);
    }
}

/// An input pin that plays back a script: each read consumes the next
/// entry, `Some(level)` being a successful sample and `None` a read
/// failure; a script that has run out also fails. The levels successfully
/// sampled are logged.
pub struct ScriptPin {
    pub script: Vec<Option<bool>>,
    pub pos: usize,
    pub log: Vec<bool>,
}

impl ScriptPin {
    pub fn new(script: Vec<Option<bool>>) -> (r: ScriptPin)
        ensures
            r.script == script,
            r.pos == 0,
            r.log@ == Seq::<bool>::empty(),
    {
        ScriptPin { script, pos: 0, log: Vec::new() }
    }
}

impl InputSignal for ScriptPin {
    type Error = ();

    open spec fn taken(&self) -> Seq<bool> {
        self.log@
    }

    fn read(&mut self) -> (r: Result<bool, ()>) {
        if self.pos < self.script.len() {
            let entry = self.script[self.pos];
            self.pos = self.pos + 1;
            match entry {
                Option::Some(level) => {
                    self.log.push(level);
                    Result::Ok(level)
                }
                Option::None => Result::Err(()),
            }
        } else {
            Result::Err(())
        }
    }
}

} // verus!
