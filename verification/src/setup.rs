//! What the emulator is told before it starts.

use vstd::prelude::*;
use crate::hexnum::HexError;
use crate::text::hex_text;
use crate::vectors::{law_vector_reads_back, parse_vector, vector_address};

verus! {

/// Something that the emulator is told.
#[derive(Clone, Copy, Debug, PartialEq, Eq, Structural)]
pub enum Command {
    /// Keep a history of instructions
    RecordInstructions,
    /// Keep a history of A-line traps
    RecordTraps,
    /// Set or clear a breakpoint on the exception vector at this address
    ToggleVectorBreakpoint(u32),
    /// Run
    Run,
    /// Run as fast as the host can
    RunUncapped,
}

/// A text that was to give an exception vector and does not.
#[derive(Debug)]
pub struct VectorError {
    pub text: String,
    pub why: HexError,
}

/// The commands that come before those of the breakpoints: which histories to keep.
pub open spec fn recording(history: usize, traps: usize) -> Seq<Command> {
    (if history > 0 {
        seq![Command::RecordInstructions]
    } else {
        seq![]
    }) + (if traps > 0 {
        seq![Command::RecordTraps]
    } else {
        seq![]
    })
}

/// The commands of the breakpoints that `vectors` give.
pub open spec fn breakpoints(vectors: Seq<String>) -> Seq<Command> {
    Seq::new(
        vectors.len(),
        |i: int| Command::ToggleVectorBreakpoint(vector_address(vectors[i]@)->Ok_0 as u32),
    )
}

/// Whether the `i`-th of `vectors` is the first that gives no address.
pub open spec fn first_bad(vectors: Seq<String>, i: int) -> bool {
    &&& 0 <= i < vectors.len()
    &&& vector_address(vectors[i]@) is Err
    &&& forall|j: int| 0 <= j < i ==> vector_address((#[trigger] vectors[j])@) is Ok
}

/// Lists what the emulator is told before it starts: to keep the histories of which some
/// entries are wanted, to stop at `vectors`, and to run, at full speed.
pub fn startup_commands(history: usize, traps: usize, vectors: &Vec<String>) -> (r: Result<
    Vec<Command>,
    VectorError,
>)
    ensures
        match r {
            Ok(commands) => {
                &&& forall|i: int|
                    0 <= i < vectors.len() ==> vector_address((#[trigger] vectors@[i])@) is Ok
                &&& commands@ == recording(history, traps) + breakpoints(vectors@) + seq![
                    Command::Run,
                    Command::RunUncapped,
                ]
            },
            Err(e) => exists|i: int|
                #[trigger] first_bad(vectors@, i) && e.text@ == vectors@[i]@
                    && vector_address(vectors@[i]@) == Err::<nat, HexError>(e.why),
        },
{
    let mut commands: Vec<Command> = Vec::new();
    if history > 0 {
        commands.push(Command::RecordInstructions);
    }
    if traps > 0 {
        commands.push(Command::RecordTraps);
    }
    let ghost start = recording(history, traps);
    assert(commands@ =~= start + breakpoints(vectors@.take(0)));
    for i in 0..vectors.len()
        invariant
            forall|j: int| 0 <= j < i ==> vector_address((#[trigger] vectors@[j])@) is Ok,
            commands@ == start + breakpoints(vectors@.take(i as int)),
    {
        match parse_vector(vectors[i].as_str()) {
            Ok(vector) => {
                commands.push(Command::ToggleVectorBreakpoint(vector));
            },
            Err(why) => {
                assert(first_bad(vectors@, i as int));
                return Err(VectorError { text: vectors[i].clone(), why });
            },
        }
        assert(commands@ =~= start + breakpoints(vectors@.take(i + 1)));
    }
    assert(vectors@.take(vectors.len() as int) =~= vectors@);
    commands.push(Command::Run);
    commands.push(Command::RunUncapped);
    assert(commands@ =~= start + breakpoints(vectors@) + seq![Command::Run, Command::RunUncapped]);
    Ok(commands)
}

impl VectorError {
    /// What to say of this error.
    pub open spec fn words(self) -> Seq<char> {
        "--break-vector '"@ + self.text@ + "': expected a hex vector address"@
    }

    /// Says what is wrong.
    pub fn message(&self) -> (text: String)
        ensures
            text@ == self.words(),
    {
        let mut text = String::from_str("--break-vector '");
        text.append(self.text.as_str());
        text.append("': expected a hex vector address");
        text
    }
}

/// The size of RAM in bytes, given in megabytes.
pub fn ram_bytes(ram_mb: Option<usize>) -> (bytes: Option<usize>)
    requires
        ram_mb matches Some(mb) ==> mb * 1024 * 1024 <= usize::MAX,
    ensures
        match ram_mb {
            Some(mb) => bytes == Some((mb * 1024 * 1024) as usize),
            None => bytes is None,
        },
{
    match ram_mb {
        Some(mb) => Some(mb * 1024 * 1024),
        None => None,
    }
}

/// How many commands say which histories to keep: one for each that is wanted.
pub open spec fn wanted(history: usize, traps: usize) -> int {
    (if history > 0 {
        1int
    } else {
        0
    }) + (if traps > 0 {
        1int
    } else {
        0
    })
}

/// Whatever `startup_commands` gives where every text gives an address is, in this order: to
/// keep each history that is wanted, a breakpoint on the very address that each text gives, to
/// run, and to run at full speed. Nothing else is told.
pub proof fn law_breakpoints_are_the_vectors_given(
    history: usize,
    traps: usize,
    vectors: &Vec<String>,
    r: Result<Vec<Command>, VectorError>,
)
    requires
        call_ensures(startup_commands, (history, traps, vectors), r),
        forall|i: int| 0 <= i < vectors.len() ==> vector_address((#[trigger] vectors@[i])@) is Ok,
    ensures
        r is Ok,
        ({
            let commands = r->Ok_0@;
            let first = wanted(history, traps);
            &&& commands.len() == first + vectors.len() + 2
            &&& history > 0 ==> commands[0] == Command::RecordInstructions
            &&& traps > 0 ==> commands[first - 1] == Command::RecordTraps
            &&& forall|i: int|
                0 <= i < vectors.len() ==> {
                    &&& #[trigger] commands[first + i] is ToggleVectorBreakpoint
                    &&& vector_address(vectors@[i]@) == Ok::<nat, HexError>(
                        commands[first + i]->ToggleVectorBreakpoint_0 as nat,
                    )
                }
            &&& commands[commands.len() - 2] == Command::Run
            &&& commands[commands.len() - 1] == Command::RunUncapped
        }),
{
    match r {
        Ok(commands) => {
            assert(commands@ == recording(history, traps) + breakpoints(vectors@) + seq![
                Command::Run,
                Command::RunUncapped,
            ]);
            let first = wanted(history, traps);
            assert(recording(history, traps).len() == first);
            assert forall|i: int| 0 <= i < vectors.len() implies {
                &&& #[trigger] commands@[first + i] is ToggleVectorBreakpoint
                &&& vector_address(vectors@[i]@) == Ok::<nat, HexError>(
                    commands@[first + i]->ToggleVectorBreakpoint_0 as nat,
                )
            } by {
                assert(commands@[first + i] == breakpoints(vectors@)[i]);
                assert(vector_address((#[trigger] vectors@[i])@) is Ok);
            }
        },
        Err(e) => {
            let i = choose|i: int|
                #[trigger] first_bad(vectors@, i) && e.text@ == vectors@[i]@ && vector_address(
                    vectors@[i]@,
                ) == Err::<nat, HexError>(e.why);
            assert(first_bad(vectors@, i));
            assert(vector_address(vectors@[i]@) is Ok);
        },
    }
}

/// Where `0x` and the hexadecimal form of an exception vector's address, of any width, stand
/// among texts that all give addresses, the breakpoint in that place is on that vector.
pub proof fn law_breakpoint_is_on_the_vector_written(
    history: usize,
    traps: usize,
    vectors: &Vec<String>,
    r: Result<Vec<Command>, VectorError>,
    i: int,
    vector: u32,
    width: nat,
)
    requires
        call_ensures(startup_commands, (history, traps, vectors), r),
        forall|j: int| 0 <= j < vectors.len() ==> vector_address((#[trigger] vectors@[j])@) is Ok,
        0 <= i < vectors.len(),
        vectors@[i]@ == "0x"@ + hex_text(vector as nat, width),
    ensures
        r is Ok,
        r->Ok_0@[wanted(history, traps) + i] == Command::ToggleVectorBreakpoint(vector),
{
    law_breakpoints_are_the_vectors_given(history, traps, vectors, r);
    law_vector_reads_back(vector, width);
    let command = r->Ok_0@[wanted(history, traps) + i];
    assert(command is ToggleVectorBreakpoint);
}

/// Whatever `startup_commands` gives where some text gives no address is the error of the first
/// such text.
pub proof fn law_first_bad_vector_is_reported(
    history: usize,
    traps: usize,
    vectors: &Vec<String>,
    r: Result<Vec<Command>, VectorError>,
    bad: int,
)
    requires
        call_ensures(startup_commands, (history, traps, vectors), r),
        0 <= bad < vectors.len(),
        vector_address(vectors@[bad]@) is Err,
        forall|j: int| 0 <= j < bad ==> vector_address((#[trigger] vectors@[j])@) is Ok,
    ensures
        r matches Err(e) && e.text@ == vectors@[bad]@ && vector_address(vectors@[bad]@) == Err::<
            nat,
            HexError,
        >(e.why),
{
    match r {
        Ok(commands) => {
            assert(vector_address((#[trigger] vectors@[bad])@) is Ok);
        },
        Err(e) => {
            let i = choose|i: int|
                #[trigger] first_bad(vectors@, i) && e.text@ == vectors@[i]@ && vector_address(
                    vectors@[i]@,
                ) == Err::<nat, HexError>(e.why);
            assert(first_bad(vectors@, i));
            if i < bad {
                assert(vector_address((#[trigger] vectors@[i])@) is Ok);
            } else if bad < i {
                assert(vector_address((#[trigger] vectors@[bad])@) is Ok);
            }
        },
    }
}

/// The message for a bad vector quotes the text that was given.
pub proof fn law_message_quotes_the_text(e: VectorError, text: String)
    requires
        call_ensures(VectorError::message, (&e,), text),
    ensures
        text@ == "--break-vector '"@ + e.text@ + "': expected a hex vector address"@,
{
    assert(text@ == e.words());
}

/// A megabyte is two to the twentieth bytes, and no size stays no size.
pub proof fn law_ram_is_given_in_megabytes(ram_mb: Option<usize>, bytes: Option<usize>)
    requires
        call_ensures(ram_bytes, (ram_mb,), bytes),
        ram_mb matches Some(mb) ==> mb * 1024 * 1024 <= usize::MAX,
    ensures
        ram_mb is None <==> bytes is None,
        ram_mb matches Some(mb) ==> bytes->0 == mb * 0x10_0000,
{
}

} // verus!
