//! The incremental build: which runs of the compile database are made
//! again, and which objects go to the linker.
//!
//! A record is judged by two times alone, that of its source and that of its
//! object. What the source includes is not looked at: a changed header makes
//! no run of a file that includes it.

use crate::compileutils::{CompileStep, StepView};
use crate::types::{CompileCommand, CompileCommands, Invocation, InvocationView, RecordView};
use vstd::prelude::*;

verus! {

/// Whether an object can be used as it is: both times are known, and the
/// object was written after the source.
pub open spec fn is_fresh(source: Option<u64>, object: Option<u64>) -> bool {
    source is Some && object is Some && object->0 > source->0
}

/// The run that a record stands for: its first argument run with the
/// others, in the directory of the caller.
pub open spec fn replay_of(record: RecordView) -> InvocationView {
    InvocationView {
        directory: None,
        binary: record.arguments[0],
        args: record.arguments.skip(1),
        echo: false,
        stream: true,
    }
}

/// What is to be run for a record whose source and object were written at
/// `source` and `object`: nothing where the object is fresh, the record's
/// own run where it is not.
pub open spec fn rebuild_of(record: RecordView, source: Option<u64>, object: Option<u64>) -> Option<
    InvocationView,
> {
    if is_fresh(source, object) {
        None
    } else {
        Some(replay_of(record))
    }
}

/// The objects of an incremental build: that of each record, in the order of
/// the database, and that of the entrypoint last.
pub open spec fn tracked_objects_of(records: Seq<RecordView>, entry: StepView) -> Seq<Seq<char>> {
    Seq::new(
        records.len() + 1,
        |i: int|
            if i < records.len() {
                records[i].output
            } else {
                entry.object
            },
    )
}

/// The seconds that lie between two times.
pub open spec fn distance(one: u64, other: u64) -> int {
    if one > other {
        one - other
    } else {
        other - one
    }
}

/// Whether a source has to be compiled again.
///
/// `source` and `object` are the times at which the two files were last
/// written, `None` for a file that is missing or cannot be read. The object
/// is kept only if both times are known and the object is the newer one; an
/// object as old as its source is made again.
pub fn needs_rebuild(source: Option<u64>, object: Option<u64>) -> (stale: bool)
    ensures
        stale == !is_fresh(source, object),
        object is None ==> stale,
        source is Some && object is Some && object->0 > source->0 ==> !stale,
{
    match (source, object) {
        (Some(written), Some(built)) => built <= written,
        _ => true,
    }
}

impl CompileCommand {
    /// The run that the record stands for, word for word: the first of its
    /// arguments is the program, the others are what the program is given.
    pub fn replay(&self) -> (command: Invocation)
        requires
            self.arguments@.len() > 0,
        ensures
            command@ == replay_of(self@),
    {
        let mut args: Vec<String> = Vec::new();
        let mut at: usize = 1;
        while at < self.arguments.len()
            invariant
                1 <= at <= self.arguments.len(),
                args@.len() == at - 1,
                forall|i: int|
                    0 <= i < at - 1 ==> (#[trigger] args@[i])@ == self.arguments@[i + 1]@,
            decreases self.arguments.len() - at,
        {
            args.push(self.arguments[at].clone());
            at = at + 1;
        }
        assert(args.deep_view() =~= self.arguments.deep_view().skip(1));
        Invocation {
            directory: None,
            binary: self.arguments[0].clone(),
            args,
            echo: false,
            stream: true,
        }
    }

    /// Decides what is run for the record, given the times at which its
    /// source and its object were last written.
    ///
    /// Where the object is newer than the source, nothing is run and the
    /// object is used as it is. In every other case, and always where the
    /// object is missing, the record's own run is made again.
    pub fn rebuild(&self, source: Option<u64>, object: Option<u64>) -> (command: Option<Invocation>)
        requires
            self.arguments@.len() > 0,
        ensures
            command.deep_view() == rebuild_of(self@, source, object),
            command is None <==> is_fresh(source, object),
            object is None ==> command is Some,
    {
        if needs_rebuild(source, object) {
            Some(self.replay())
        } else {
            None
        }
    }
}

/// Lists the objects that an incremental build links: the object of every
/// record, whether it was made again or not, in the order of the database,
/// and the object of the entrypoint, which is always compiled, last.
pub fn tracked_objects(records: &CompileCommands, entry: &CompileStep) -> (objects: Vec<String>)
    ensures
        objects.deep_view() == tracked_objects_of(records@, entry@),
{
    let mut objects: Vec<String> = Vec::new();
    let mut at: usize = 0;
    while at < records.0.len()
        invariant
            at <= records.0.len(),
            objects@.len() == at,
            forall|i: int| 0 <= i < at ==> (#[trigger] objects@[i])@ == records.0@[i].output@,
        decreases records.0.len() - at,
    {
        objects.push(records.0[at].output.clone());
        at = at + 1;
    }
    objects.push(entry.object.clone());
    assert(objects.deep_view() =~= tracked_objects_of(records@, entry@));
    objects
}

/// The seconds that lie between two times, whichever is the later.
pub fn since(timestamp1: u64, timestamp2: u64) -> (seconds: u64)
    ensures
        seconds == distance(timestamp1, timestamp2),
{
    if timestamp1 > timestamp2 {
        timestamp1 - timestamp2
    } else {
        timestamp2 - timestamp1
    }
}

} // verus!
