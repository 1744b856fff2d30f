//! The command/reply protocol spoken with a slave process. A command is a
//! stable small-integer opcode followed by its positional arguments; a reply
//! is either a bare status code or a status code with an optional value
//! payload. Every message is serialized by this module's encoders, whose
//! byte-exact layout is fixed by specification functions, and the decoders
//! are proved to be their inverses: the wire contract is an explicit schema,
//! not an artifact of a serialization library.
//!
//! Real-valued variables travel as the 64-bit patterns of their values; this
//! crate never interprets them, it only carries them faithfully.

use crate::status::Fmi2Status;
use crate::wire::{
    bytes_views, dec_bool, dec_bool_list, dec_bytes, dec_bytes_list, dec_i32, dec_i32_list,
    dec_opt_u64, dec_u32, dec_u32_list, dec_u64, dec_u64_list, dec_u8, enc_bool, enc_bool_list,
    enc_bytes, enc_bytes_list, enc_i32, enc_i32_list, enc_opt_u64, enc_u32, enc_u32_list, enc_u64,
    enc_u64_list, enc_u8, lemma_dec_enc_bool, lemma_dec_enc_bool_list, lemma_dec_enc_bytes,
    lemma_dec_enc_bytes_list, lemma_dec_enc_i32, lemma_dec_enc_i32_list, lemma_dec_enc_opt_u64,
    lemma_dec_enc_u32, lemma_dec_enc_u32_list, lemma_dec_enc_u64, lemma_dec_enc_u64_list,
    lemma_dec_enc_u8, lemma_enc_dec_bool, lemma_enc_dec_bool_list, lemma_enc_dec_bytes,
    lemma_enc_dec_bytes_list, lemma_enc_dec_i32, lemma_enc_dec_i32_list, lemma_enc_dec_opt_u64,
    lemma_enc_dec_u32_list, lemma_enc_dec_u64, lemma_enc_dec_u64_list, lemma_enc_dec_u8,
    spec_enc_bool, spec_enc_bool_list, spec_enc_bytes, spec_enc_bytes_list,
    spec_enc_i32, spec_enc_i32_list, spec_enc_opt_u64, spec_enc_u32, spec_enc_u32_list,
    spec_enc_u64, spec_enc_u64_list, spec_enc_u8, spec_dec_bool, spec_dec_bool_list,
    spec_dec_bytes, spec_dec_bytes_list, spec_dec_i32, spec_dec_i32_list, spec_dec_opt_u64,
    spec_dec_u32, spec_dec_u32_list, spec_dec_u64, spec_dec_u64_list, spec_dec_u8,
};
use vstd::prelude::*;

verus! {

/// The four variable kinds a slave exchanges.
#[derive(Clone, Copy, Debug, PartialEq, Eq, Structural)]
pub enum Fmi2ValueKind {
    Real,
    Integer,
    Boolean,
    Text,
}

impl Fmi2ValueKind {
    /// The wire tag of this kind.
    pub open spec fn tag(self) -> int {
        match self {
            Fmi2ValueKind::Real => 0,
            Fmi2ValueKind::Integer => 1,
            Fmi2ValueKind::Boolean => 2,
            Fmi2ValueKind::Text => 3,
        }
    }

    pub fn to_tag(self) -> (r: u8)
        ensures
            r == self.tag(),
    {
        match self {
            Fmi2ValueKind::Real => 0,
            Fmi2ValueKind::Integer => 1,
            Fmi2ValueKind::Boolean => 2,
            Fmi2ValueKind::Text => 3,
        }
    }
}

/// A homogeneous batch of variable values, as set on or read from a slave.
/// A real value is carried as the 64-bit pattern of the underlying double;
/// a string is carried as its raw bytes.
#[derive(Debug, PartialEq, Eq)]
pub enum Fmi2Values {
    Real(Vec<u64>),
    Integer(Vec<i32>),
    Boolean(Vec<bool>),
    Text(Vec<Vec<u8>>),
}

/// The mathematical shape of a value batch.
pub enum ValuesView {
    Real(Seq<u64>),
    Integer(Seq<i32>),
    Boolean(Seq<bool>),
    Text(Seq<Seq<u8>>),
}

impl View for Fmi2Values {
    type V = ValuesView;

    open spec fn view(&self) -> ValuesView {
        match self {
            Fmi2Values::Real(xs) => ValuesView::Real(xs@),
            Fmi2Values::Integer(xs) => ValuesView::Integer(xs@),
            Fmi2Values::Boolean(xs) => ValuesView::Boolean(xs@),
            Fmi2Values::Text(xs) => ValuesView::Text(bytes_views(xs@)),
        }
    }
}

impl ValuesView {
    /// The kind of this batch.
    pub open spec fn kind(self) -> Fmi2ValueKind {
        match self {
            ValuesView::Real(_) => Fmi2ValueKind::Real,
            ValuesView::Integer(_) => Fmi2ValueKind::Integer,
            ValuesView::Boolean(_) => Fmi2ValueKind::Boolean,
            ValuesView::Text(_) => Fmi2ValueKind::Text,
        }
    }

    /// How many values the batch holds.
    pub open spec fn len(self) -> nat {
        match self {
            ValuesView::Real(xs) => xs.len(),
            ValuesView::Integer(xs) => xs.len(),
            ValuesView::Boolean(xs) => xs.len(),
            ValuesView::Text(xs) => xs.len(),
        }
    }

    /// Whether the batch fits the wire format's 32-bit counters.
    pub open spec fn encodable(self) -> bool {
        match self {
            ValuesView::Real(xs) => xs.len() <= u32::MAX,
            ValuesView::Integer(xs) => xs.len() <= u32::MAX,
            ValuesView::Boolean(xs) => xs.len() <= u32::MAX,
            ValuesView::Text(xs) => xs.len() <= u32::MAX && forall|i: int|
                0 <= i < xs.len() ==> #[trigger] xs[i].len() <= u32::MAX,
        }
    }
}

impl Fmi2Values {
    /// The kind of this batch.
    pub fn kind(&self) -> (r: Fmi2ValueKind)
        ensures
            r == self@.kind(),
    {
        match self {
            Fmi2Values::Real(_) => Fmi2ValueKind::Real,
            Fmi2Values::Integer(_) => Fmi2ValueKind::Integer,
            Fmi2Values::Boolean(_) => Fmi2ValueKind::Boolean,
            Fmi2Values::Text(_) => Fmi2ValueKind::Text,
        }
    }

    /// How many values this batch holds.
    pub fn len(&self) -> (r: usize)
        ensures
            r == self@.len(),
    {
        match self {
            Fmi2Values::Real(xs) => xs.len(),
            Fmi2Values::Integer(xs) => xs.len(),
            Fmi2Values::Boolean(xs) => xs.len(),
            Fmi2Values::Text(xs) => xs.len(),
        }
    }
}

/// The encoding of a value batch: the kind tag, then the counted list.
pub open spec fn spec_enc_values(v: ValuesView) -> Seq<u8> {
    match v {
        ValuesView::Real(xs) => spec_enc_u8(0) + spec_enc_u64_list(xs),
        ValuesView::Integer(xs) => spec_enc_u8(1) + spec_enc_i32_list(xs),
        ValuesView::Boolean(xs) => spec_enc_u8(2) + spec_enc_bool_list(xs),
        ValuesView::Text(xs) => spec_enc_u8(3) + spec_enc_bytes_list(xs),
    }
}

pub open spec fn spec_dec_values(b: Seq<u8>) -> Option<(ValuesView, Seq<u8>)> {
    match spec_dec_u8(b) {
        Some((tag, r0)) => if tag == 0 {
            match spec_dec_u64_list(r0) {
                Some((xs, r1)) => Some((ValuesView::Real(xs), r1)),
                None => None,
            }
        } else if tag == 1 {
            match spec_dec_i32_list(r0) {
                Some((xs, r1)) => Some((ValuesView::Integer(xs), r1)),
                None => None,
            }
        } else if tag == 2 {
            match spec_dec_bool_list(r0) {
                Some((xs, r1)) => Some((ValuesView::Boolean(xs), r1)),
                None => None,
            }
        } else if tag == 3 {
            match spec_dec_bytes_list(r0) {
                Some((xs, r1)) => Some((ValuesView::Text(xs), r1)),
                None => None,
            }
        } else {
            None
        },
        None => None,
    }
}

pub proof fn lemma_dec_enc_values(v: ValuesView, rest: Seq<u8>)
    requires
        v.encodable(),
    ensures
        spec_dec_values(spec_enc_values(v) + rest) == Some((v, rest)),
{
    match v {
        ValuesView::Real(xs) => {
            assert(spec_enc_values(v) + rest =~= spec_enc_u8(0) + (spec_enc_u64_list(xs) + rest));
            lemma_dec_enc_u8(0, spec_enc_u64_list(xs) + rest);
            lemma_dec_enc_u64_list(xs, rest);
        },
        ValuesView::Integer(xs) => {
            assert(spec_enc_values(v) + rest =~= spec_enc_u8(1) + (spec_enc_i32_list(xs) + rest));
            lemma_dec_enc_u8(1, spec_enc_i32_list(xs) + rest);
            lemma_dec_enc_i32_list(xs, rest);
        },
        ValuesView::Boolean(xs) => {
            assert(spec_enc_values(v) + rest =~= spec_enc_u8(2) + (spec_enc_bool_list(xs) + rest));
            lemma_dec_enc_u8(2, spec_enc_bool_list(xs) + rest);
            lemma_dec_enc_bool_list(xs, rest);
        },
        ValuesView::Text(xs) => {
            assert(spec_enc_values(v) + rest =~= spec_enc_u8(3) + (spec_enc_bytes_list(xs) + rest));
            lemma_dec_enc_u8(3, spec_enc_bytes_list(xs) + rest);
            lemma_dec_enc_bytes_list(xs, rest);
        },
    }
}

fn enc_values(out: &mut Vec<u8>, v: &Fmi2Values)
    requires
        v@.encodable(),
    ensures
        final(out)@ == old(out)@ + spec_enc_values(v@),
{
    match v {
        Fmi2Values::Real(xs) => {
            enc_u8(out, 0);
            enc_u64_list(out, xs);
        },
        Fmi2Values::Integer(xs) => {
            enc_u8(out, 1);
            enc_i32_list(out, xs);
        },
        Fmi2Values::Boolean(xs) => {
            enc_u8(out, 2);
            enc_bool_list(out, xs);
        },
        Fmi2Values::Text(xs) => {
            enc_u8(out, 3);
            enc_bytes_list(out, xs);
        },
    }
    proof {
        assert(final(out)@ =~= old(out)@ + spec_enc_values(v@));
    }
}

fn dec_values(b: &Vec<u8>, pos: usize) -> (r: Option<(Fmi2Values, usize)>)
    requires
        pos <= b@.len(),
    ensures
        (match r {
            Some((v, next)) => {
                &&& pos <= next <= b@.len()
                &&& spec_dec_values(b@.skip(pos as int)) == Some((v@, b@.skip(next as int)))
            },
            None => spec_dec_values(b@.skip(pos as int)) is None,
        }),
{
    match dec_u8(b, pos) {
        Some((tag, mid)) => {
            if tag == 0 {
                match dec_u64_list(b, mid) {
                    Some((xs, next)) => Some((Fmi2Values::Real(xs), next)),
                    None => None,
                }
            } else if tag == 1 {
                match dec_i32_list(b, mid) {
                    Some((xs, next)) => Some((Fmi2Values::Integer(xs), next)),
                    None => None,
                }
            } else if tag == 2 {
                match dec_bool_list(b, mid) {
                    Some((xs, next)) => Some((Fmi2Values::Boolean(xs), next)),
                    None => None,
                }
            } else if tag == 3 {
                match dec_bytes_list(b, mid) {
                    Some((xs, next)) => Some((Fmi2Values::Text(xs), next)),
                    None => None,
                }
            } else {
                None
            }
        },
        None => None,
    }
}

} // verus!

verus! {

// ------------------------------ commands ------------------------------

/// A request to a slave process. The opcode of each operation is a stable
/// small integer; it and the argument layout are the wire contract that the
/// child-process counterpart mirrors.
#[derive(Debug, PartialEq, Eq)]
pub enum Command {
    SetDebugLogging { categories: Vec<Vec<u8>>, logging_on: bool },
    SetupExperiment { start_time: u64, tolerance: Option<u64>, stop_time: Option<u64> },
    EnterInitializationMode,
    ExitInitializationMode,
    Terminate,
    Reset,
    SetValues { references: Vec<u32>, values: Fmi2Values },
    GetValues { kind: Fmi2ValueKind, references: Vec<u32> },
    DoStep { current_time: u64, step_size: u64, no_set_state_prior: bool },
    FreeInstance,
}

/// The mathematical shape of a command.
pub enum CommandView {
    SetDebugLogging { categories: Seq<Seq<u8>>, logging_on: bool },
    SetupExperiment { start_time: u64, tolerance: Option<u64>, stop_time: Option<u64> },
    EnterInitializationMode,
    ExitInitializationMode,
    Terminate,
    Reset,
    SetValues { references: Seq<u32>, values: ValuesView },
    GetValues { kind: Fmi2ValueKind, references: Seq<u32> },
    DoStep { current_time: u64, step_size: u64, no_set_state_prior: bool },
    FreeInstance,
}

impl View for Command {
    type V = CommandView;

    open spec fn view(&self) -> CommandView {
        match self {
            Command::SetDebugLogging { categories, logging_on } => CommandView::SetDebugLogging {
                categories: bytes_views(categories@),
                logging_on: *logging_on,
            },
            Command::SetupExperiment { start_time, tolerance, stop_time } => (
            CommandView::SetupExperiment {
                start_time: *start_time,
                tolerance: *tolerance,
                stop_time: *stop_time,
            }),
            Command::EnterInitializationMode => CommandView::EnterInitializationMode,
            Command::ExitInitializationMode => CommandView::ExitInitializationMode,
            Command::Terminate => CommandView::Terminate,
            Command::Reset => CommandView::Reset,
            Command::SetValues { references, values } => CommandView::SetValues {
                references: references@,
                values: values@,
            },
            Command::GetValues { kind, references } => CommandView::GetValues {
                kind: *kind,
                references: references@,
            },
            Command::DoStep { current_time, step_size, no_set_state_prior } => (
            CommandView::DoStep {
                current_time: *current_time,
                step_size: *step_size,
                no_set_state_prior: *no_set_state_prior,
            }),
            Command::FreeInstance => CommandView::FreeInstance,
        }
    }
}

impl CommandView {
    /// The stable operation code of this command.
    pub open spec fn opcode(self) -> int {
        match self {
            CommandView::SetDebugLogging { .. } => 0,
            CommandView::SetupExperiment { .. } => 1,
            CommandView::EnterInitializationMode => 2,
            CommandView::ExitInitializationMode => 3,
            CommandView::Terminate => 4,
            CommandView::Reset => 5,
            CommandView::SetValues { .. } => 6,
            CommandView::GetValues { .. } => 7,
            CommandView::DoStep { .. } => 8,
            CommandView::FreeInstance => 9,
        }
    }

    /// Whether the command fits the wire format's 32-bit counters.
    pub open spec fn encodable(self) -> bool {
        match self {
            CommandView::SetDebugLogging { categories, .. } => categories.len() <= u32::MAX
                && forall|i: int|
                0 <= i < categories.len() ==> #[trigger] categories[i].len() <= u32::MAX,
            CommandView::SetValues { references, values } => references.len() <= u32::MAX
                && values.encodable(),
            CommandView::GetValues { references, .. } => references.len() <= u32::MAX,
            _ => true,
        }
    }
}

impl Command {
    /// The stable operation code of this command.
    pub fn opcode(&self) -> (r: u8)
        ensures
            r == self@.opcode(),
    {
        match self {
            Command::SetDebugLogging { .. } => 0,
            Command::SetupExperiment { .. } => 1,
            Command::EnterInitializationMode => 2,
            Command::ExitInitializationMode => 3,
            Command::Terminate => 4,
            Command::Reset => 5,
            Command::SetValues { .. } => 6,
            Command::GetValues { .. } => 7,
            Command::DoStep { .. } => 8,
            Command::FreeInstance => 9,
        }
    }
}

/// The byte-exact encoding of a command: its opcode, then its arguments.
pub open spec fn spec_enc_command(c: CommandView) -> Seq<u8> {
    match c {
        CommandView::SetDebugLogging { categories, logging_on } => spec_enc_u8(0)
            + spec_enc_bytes_list(categories) + spec_enc_bool(logging_on),
        CommandView::SetupExperiment { start_time, tolerance, stop_time } => spec_enc_u8(1)
            + spec_enc_u64(start_time) + spec_enc_opt_u64(tolerance) + spec_enc_opt_u64(stop_time),
        CommandView::EnterInitializationMode => spec_enc_u8(2),
        CommandView::ExitInitializationMode => spec_enc_u8(3),
        CommandView::Terminate => spec_enc_u8(4),
        CommandView::Reset => spec_enc_u8(5),
        CommandView::SetValues { references, values } => spec_enc_u8(6) + spec_enc_u32_list(
            references,
        ) + spec_enc_values(values),
        CommandView::GetValues { kind, references } => spec_enc_u8(7) + spec_enc_u8(
            kind.tag() as u8,
        ) + spec_enc_u32_list(references),
        CommandView::DoStep { current_time, step_size, no_set_state_prior } => spec_enc_u8(8)
            + spec_enc_u64(current_time) + spec_enc_u64(step_size) + spec_enc_bool(
            no_set_state_prior,
        ),
        CommandView::FreeInstance => spec_enc_u8(9),
    }
}

/// The decoding of a whole command message; a message with an unknown
/// opcode, a malformed argument, or trailing bytes decodes to nothing.
pub open spec fn spec_dec_command(b: Seq<u8>) -> Option<CommandView> {
    match spec_dec_u8(b) {
        None => None,
        Some((op, r0)) => if op == 0 {
            match spec_dec_bytes_list(r0) {
                Some((categories, r1)) => match spec_dec_bool(r1) {
                    Some((logging_on, r2)) => if r2.len() == 0 {
                        Some(CommandView::SetDebugLogging { categories, logging_on })
                    } else {
                        None
                    },
                    None => None,
                },
                None => None,
            }
        } else if op == 1 {
            match spec_dec_u64(r0) {
                Some((start_time, r1)) => match spec_dec_opt_u64(r1) {
                    Some((tolerance, r2)) => match spec_dec_opt_u64(r2) {
                        Some((stop_time, r3)) => if r3.len() == 0 {
                            Some(CommandView::SetupExperiment { start_time, tolerance, stop_time })
                        } else {
                            None
                        },
                        None => None,
                    },
                    None => None,
                },
                None => None,
            }
        } else if op == 2 {
            if r0.len() == 0 {
                Some(CommandView::EnterInitializationMode)
            } else {
                None
            }
        } else if op == 3 {
            if r0.len() == 0 {
                Some(CommandView::ExitInitializationMode)
            } else {
                None
            }
        } else if op == 4 {
            if r0.len() == 0 {
                Some(CommandView::Terminate)
            } else {
                None
            }
        } else if op == 5 {
            if r0.len() == 0 {
                Some(CommandView::Reset)
            } else {
                None
            }
        } else if op == 6 {
            match spec_dec_u32_list(r0) {
                Some((references, r1)) => match spec_dec_values(r1) {
                    Some((values, r2)) => if r2.len() == 0 {
                        Some(CommandView::SetValues { references, values })
                    } else {
                        None
                    },
                    None => None,
                },
                None => None,
            }
        } else if op == 7 {
            match spec_dec_u8(r0) {
                Some((tag, r1)) => if tag <= 3 {
                    match spec_dec_u32_list(r1) {
                        Some((references, r2)) => if r2.len() == 0 {
                            Some(
                                CommandView::GetValues {
                                    kind: if tag == 0 {
                                        Fmi2ValueKind::Real
                                    } else if tag == 1 {
                                        Fmi2ValueKind::Integer
                                    } else if tag == 2 {
                                        Fmi2ValueKind::Boolean
                                    } else {
                                        Fmi2ValueKind::Text
                                    },
                                    references,
                                },
                            )
                        } else {
                            None
                        },
                        None => None,
                    }
                } else {
                    None
                },
                None => None,
            }
        } else if op == 8 {
            match spec_dec_u64(r0) {
                Some((current_time, r1)) => match spec_dec_u64(r1) {
                    Some((step_size, r2)) => match spec_dec_bool(r2) {
                        Some((no_set_state_prior, r3)) => if r3.len() == 0 {
                            Some(
                                CommandView::DoStep {
                                    current_time,
                                    step_size,
                                    no_set_state_prior,
                                },
                            )
                        } else {
                            None
                        },
                        None => None,
                    },
                    None => None,
                },
                None => None,
            }
        } else if op == 9 {
            if r0.len() == 0 {
                Some(CommandView::FreeInstance)
            } else {
                None
            }
        } else {
            None
        },
    }
}

/// Serializes a command for the command channel.
pub fn encode_command(c: &Command) -> (r: Vec<u8>)
    requires
        c@.encodable(),
    ensures
        r@ == spec_enc_command(c@),
{
    let mut out: Vec<u8> = Vec::new();
    match c {
        Command::SetDebugLogging { categories, logging_on } => {
            enc_u8(&mut out, 0);
            enc_bytes_list(&mut out, categories);
            enc_bool(&mut out, *logging_on);
        },
        Command::SetupExperiment { start_time, tolerance, stop_time } => {
            enc_u8(&mut out, 1);
            enc_u64(&mut out, *start_time);
            enc_opt_u64(&mut out, *tolerance);
            enc_opt_u64(&mut out, *stop_time);
        },
        Command::EnterInitializationMode => {
            enc_u8(&mut out, 2);
        },
        Command::ExitInitializationMode => {
            enc_u8(&mut out, 3);
        },
        Command::Terminate => {
            enc_u8(&mut out, 4);
        },
        Command::Reset => {
            enc_u8(&mut out, 5);
        },
        Command::SetValues { references, values } => {
            enc_u8(&mut out, 6);
            enc_u32_list(&mut out, references);
            enc_values(&mut out, values);
        },
        Command::GetValues { kind, references } => {
            enc_u8(&mut out, 7);
            enc_u8(&mut out, kind.to_tag());
            enc_u32_list(&mut out, references);
        },
        Command::DoStep { current_time, step_size, no_set_state_prior } => {
            enc_u8(&mut out, 8);
            enc_u64(&mut out, *current_time);
            enc_u64(&mut out, *step_size);
            enc_bool(&mut out, *no_set_state_prior);
        },
        Command::FreeInstance => {
            enc_u8(&mut out, 9);
        },
    }
    proof {
        assert(out@ =~= spec_enc_command(c@));
    }
    out
}

/// Deserializes a command message, as the child-process counterpart must;
/// exactly the well-formed encodings decode, and to the command encoded.
pub fn decode_command(b: &Vec<u8>) -> (r: Option<Command>)
    ensures
        (match r {
            Some(c) => spec_dec_command(b@) == Some(c@),
            None => spec_dec_command(b@) is None,
        }),
{
    proof {
        assert(b@.skip(0) =~= b@);
    }
    match dec_u8(b, 0) {
        None => None,
        Some((op, p0)) => {
            if op == 0 {
                match dec_bytes_list(b, p0) {
                    Some((categories, p1)) => match dec_bool(b, p1) {
                        Some((logging_on, p2)) => if p2 == b.len() {
                            proof {
                                assert(b@.skip(p2 as int).len() == 0);
                            }
                            Some(Command::SetDebugLogging { categories, logging_on })
                        } else {
                            None
                        },
                        None => None,
                    },
                    None => None,
                }
            } else if op == 1 {
                match dec_u64(b, p0) {
                    Some((start_time, p1)) => match dec_opt_u64(b, p1) {
                        Some((tolerance, p2)) => match dec_opt_u64(b, p2) {
                            Some((stop_time, p3)) => if p3 == b.len() {
                                proof {
                                    assert(b@.skip(p3 as int).len() == 0);
                                }
                                Some(
                                    Command::SetupExperiment { start_time, tolerance, stop_time },
                                )
                            } else {
                                None
                            },
                            None => None,
                        },
                        None => None,
                    },
                    None => None,
                }
            } else if op == 2 {
                if p0 == b.len() {
                    proof {
                        assert(b@.skip(p0 as int).len() == 0);
                    }
                    Some(Command::EnterInitializationMode)
                } else {
                    None
                }
            } else if op == 3 {
                if p0 == b.len() {
                    proof {
                        assert(b@.skip(p0 as int).len() == 0);
                    }
                    Some(Command::ExitInitializationMode)
                } else {
                    None
                }
            } else if op == 4 {
                if p0 == b.len() {
                    proof {
                        assert(b@.skip(p0 as int).len() == 0);
                    }
                    Some(Command::Terminate)
                } else {
                    None
                }
            } else if op == 5 {
                if p0 == b.len() {
                    proof {
                        assert(b@.skip(p0 as int).len() == 0);
                    }
                    Some(Command::Reset)
                } else {
                    None
                }
            } else if op == 6 {
                match dec_u32_list(b, p0) {
                    Some((references, p1)) => match dec_values(b, p1) {
                        Some((values, p2)) => if p2 == b.len() {
                            proof {
                                assert(b@.skip(p2 as int).len() == 0);
                            }
                            Some(Command::SetValues { references, values })
                        } else {
                            None
                        },
                        None => None,
                    },
                    None => None,
                }
            } else if op == 7 {
                match dec_u8(b, p0) {
                    Some((tag, p1)) => if tag <= 3 {
                        match dec_u32_list(b, p1) {
                            Some((references, p2)) => if p2 == b.len() {
                                proof {
                                    assert(b@.skip(p2 as int).len() == 0);
                                }
                                let kind = if tag == 0 {
                                    Fmi2ValueKind::Real
                                } else if tag == 1 {
                                    Fmi2ValueKind::Integer
                                } else if tag == 2 {
                                    Fmi2ValueKind::Boolean
                                } else {
                                    Fmi2ValueKind::Text
                                };
                                Some(Command::GetValues { kind, references })
                            } else {
                                None
                            },
                            None => None,
                        }
                    } else {
                        None
                    },
                    None => None,
                }
            } else if op == 8 {
                match dec_u64(b, p0) {
                    Some((current_time, p1)) => match dec_u64(b, p1) {
                        Some((step_size, p2)) => match dec_bool(b, p2) {
                            Some((no_set_state_prior, p3)) => if p3 == b.len() {
                                proof {
                                    assert(b@.skip(p3 as int).len() == 0);
                                }
                                Some(
                                    Command::DoStep {
                                        current_time,
                                        step_size,
                                        no_set_state_prior,
                                    },
                                )
                            } else {
                                None
                            },
                            None => None,
                        },
                        None => None,
                    },
                    None => None,
                }
            } else if op == 9 {
                if p0 == b.len() {
                    proof {
                        assert(b@.skip(p0 as int).len() == 0);
                    }
                    Some(Command::FreeInstance)
                } else {
                    None
                }
            } else {
                None
            }
        },
    }
}

/// Round trip: every encodable command comes back unchanged from its own
/// encoding, so the command channel loses nothing.
pub proof fn lemma_command_round_trip(c: CommandView)
    requires
        c.encodable(),
    ensures
        spec_dec_command(spec_enc_command(c)) == Some(c),
{
    let b = spec_enc_command(c);
    let e = Seq::<u8>::empty();
    match c {
        CommandView::SetDebugLogging { categories, logging_on } => {
            let after0 = spec_enc_bytes_list(categories) + spec_enc_bool(logging_on);
            assert(b =~= spec_enc_u8(0) + after0);
            lemma_dec_enc_u8(0, after0);
            assert(after0 =~= spec_enc_bytes_list(categories) + (spec_enc_bool(logging_on) + e));
            lemma_dec_enc_bytes_list(categories, spec_enc_bool(logging_on) + e);
            lemma_dec_enc_bool(logging_on, e);
            assert(spec_enc_bool(logging_on) + e =~= spec_enc_bool(logging_on));
        },
        CommandView::SetupExperiment { start_time, tolerance, stop_time } => {
            let t2 = spec_enc_opt_u64(stop_time);
            let t1 = spec_enc_opt_u64(tolerance) + t2;
            let t0 = spec_enc_u64(start_time) + t1;
            assert(b =~= spec_enc_u8(1) + t0);
            lemma_dec_enc_u8(1, t0);
            lemma_dec_enc_u64(start_time, t1);
            lemma_dec_enc_opt_u64(tolerance, t2);
            assert(t2 =~= spec_enc_opt_u64(stop_time) + e);
            lemma_dec_enc_opt_u64(stop_time, e);
        },
        CommandView::EnterInitializationMode => {
            assert(b =~= spec_enc_u8(2) + e);
            lemma_dec_enc_u8(2, e);
        },
        CommandView::ExitInitializationMode => {
            assert(b =~= spec_enc_u8(3) + e);
            lemma_dec_enc_u8(3, e);
        },
        CommandView::Terminate => {
            assert(b =~= spec_enc_u8(4) + e);
            lemma_dec_enc_u8(4, e);
        },
        CommandView::Reset => {
            assert(b =~= spec_enc_u8(5) + e);
            lemma_dec_enc_u8(5, e);
        },
        CommandView::SetValues { references, values } => {
            let t1 = spec_enc_values(values);
            let t0 = spec_enc_u32_list(references) + t1;
            assert(b =~= spec_enc_u8(6) + t0);
            lemma_dec_enc_u8(6, t0);
            lemma_dec_enc_u32_list(references, t1);
            assert(t1 =~= spec_enc_values(values) + e);
            lemma_dec_enc_values(values, e);
        },
        CommandView::GetValues { kind, references } => {
            let t1 = spec_enc_u32_list(references);
            let t0 = spec_enc_u8(kind.tag() as u8) + t1;
            assert(b =~= spec_enc_u8(7) + t0);
            lemma_dec_enc_u8(7, t0);
            lemma_dec_enc_u8(kind.tag() as u8, t1);
            assert(t1 =~= spec_enc_u32_list(references) + e);
            lemma_dec_enc_u32_list(references, e);
        },
        CommandView::DoStep { current_time, step_size, no_set_state_prior } => {
            let t2 = spec_enc_bool(no_set_state_prior);
            let t1 = spec_enc_u64(step_size) + t2;
            let t0 = spec_enc_u64(current_time) + t1;
            assert(b =~= spec_enc_u8(8) + t0);
            lemma_dec_enc_u8(8, t0);
            lemma_dec_enc_u64(current_time, t1);
            lemma_dec_enc_u64(step_size, t2);
            assert(t2 =~= spec_enc_bool(no_set_state_prior) + e);
            lemma_dec_enc_bool(no_set_state_prior, e);
        },
        CommandView::FreeInstance => {
            assert(b =~= spec_enc_u8(9) + e);
            lemma_dec_enc_u8(9, e);
        },
    }
}

} // verus!

verus! {

// ------------------------------ replies ------------------------------

/// The encoding of a bare status reply, as every lifecycle, set and step
/// operation receives it: one signed 32-bit status code.
pub open spec fn spec_enc_status_reply(status: Fmi2Status) -> Seq<u8> {
    spec_enc_i32(status.code() as i32)
}

/// The decoding of a bare status reply: exactly four bytes holding a code
/// in range. Anything else is a protocol error, not a status.
pub open spec fn spec_dec_status_reply(b: Seq<u8>) -> Option<Fmi2Status> {
    match spec_dec_i32(b) {
        Some((code, rest)) => if rest.len() == 0 {
            Fmi2Status::spec_from_code(code as int)
        } else {
            None
        },
        None => None,
    }
}

/// Serializes a status reply, as the child-process counterpart must.
pub fn encode_status_reply(status: Fmi2Status) -> (r: Vec<u8>)
    ensures
        r@ == spec_enc_status_reply(status),
{
    let mut out: Vec<u8> = Vec::new();
    enc_i32(&mut out, status.to_code());
    out
}

/// Deserializes a bare status reply; a reply that does not hold exactly one
/// in-range status code is a protocol error and decodes to nothing.
pub fn decode_status_reply(b: &Vec<u8>) -> (r: Option<Fmi2Status>)
    ensures
        (match r {
            Some(status) => spec_dec_status_reply(b@) == Some(status),
            None => spec_dec_status_reply(b@) is None,
        }),
{
    proof {
        assert(b@.skip(0) =~= b@);
    }
    match dec_i32(b, 0) {
        Some((code, next)) => {
            if next == b.len() {
                proof {
                    assert(b@.skip(next as int).len() == 0);
                }
                match Fmi2Status::try_from_code(code) {
                    Ok(status) => Some(status),
                    Err(_) => None,
                }
            } else {
                None
            }
        },
        None => None,
    }
}

/// Round trip: every status survives the reply channel unchanged.
pub proof fn lemma_status_reply_round_trip(status: Fmi2Status)
    ensures
        spec_dec_status_reply(spec_enc_status_reply(status)) == Some(status),
{
    let e = Seq::<u8>::empty();
    assert(spec_enc_status_reply(status) =~= spec_enc_i32(status.code() as i32) + e);
    lemma_dec_enc_i32(status.code() as i32, e);
}

/// The encoding of a get-operation reply: the status code, then a presence
/// byte, then — only when the values are present — the value batch.
pub open spec fn spec_enc_get_reply(status: Fmi2Status, values: Option<ValuesView>) -> Seq<u8> {
    spec_enc_i32(status.code() as i32) + (match values {
        None => seq![0u8],
        Some(v) => seq![1u8] + spec_enc_values(v),
    })
}

/// A well-formed get-reply carries values exactly when its status is no
/// more severe than a warning: callers must never see values beside a
/// severe status, and a success without values would leave them nothing
/// to read.
pub open spec fn get_reply_wf(status: Fmi2Status, values: Option<ValuesView>) -> bool {
    values is Some <==> status.spec_at_most_warning()
}

/// The decoding of a get-operation reply for an expected value kind.
/// A reply decodes only if it is well-formed: values of the expected kind
/// beside a status no more severe than a warning, or no values beside a
/// more severe status. Everything else marks a desynchronized child.
pub open spec fn spec_dec_get_reply(b: Seq<u8>, kind: Fmi2ValueKind) -> Option<
    (Fmi2Status, Option<ValuesView>),
> {
    match spec_dec_i32(b) {
        Some((code, r0)) => match Fmi2Status::spec_from_code(code as int) {
            Some(status) => match spec_dec_u8(r0) {
                Some((tag, r1)) => if tag == 1 && status.spec_at_most_warning() {
                    match spec_dec_values(r1) {
                        Some((v, r2)) => if r2.len() == 0 && v.kind() == kind {
                            Some((status, Some(v)))
                        } else {
                            None
                        },
                        None => None,
                    }
                } else if tag == 0 && !status.spec_at_most_warning() {
                    if r1.len() == 0 {
                        Some((status, None))
                    } else {
                        None
                    }
                } else {
                    None
                },
                None => None,
            },
            None => None,
        },
        None => None,
    }
}

/// Serializes a get-operation reply, as the child-process counterpart must.
pub fn encode_get_reply(status: Fmi2Status, values: Option<Fmi2Values>) -> (r: Vec<u8>)
    requires
        (match values {
            Some(v) => v@.encodable(),
            None => true,
        }),
    ensures
        r@ == spec_enc_get_reply(
            status,
            match values {
                Some(v) => Some(v@),
                None => None,
            },
        ),
{
    let mut out: Vec<u8> = Vec::new();
    enc_i32(&mut out, status.to_code());
    match &values {
        None => {
            enc_u8(&mut out, 0);
        },
        Some(v) => {
            enc_u8(&mut out, 1);
            enc_values(&mut out, v);
        },
    }
    proof {
        assert(out@ =~= spec_enc_get_reply(
            status,
            match values {
                Some(v) => Some(v@),
                None => None,
            },
        ));
    }
    out
}

/// Deserializes a get-operation reply. Values come back only beside a
/// status no more severe than a warning, and only in the expected kind;
/// a severe status comes back bare.
pub fn decode_get_reply(b: &Vec<u8>, kind: Fmi2ValueKind) -> (r: Option<
    (Fmi2Status, Option<Fmi2Values>),
>)
    ensures
        (match r {
            Some((status, values)) => spec_dec_get_reply(b@, kind) == Some(
                (
                    status,
                    match values {
                        Some(v) => Some(v@),
                        None => None,
                    },
                ),
            ),
            None => spec_dec_get_reply(b@, kind) is None,
        }),
{
    proof {
        assert(b@.skip(0) =~= b@);
    }
    match dec_i32(b, 0) {
        Some((code, p0)) => match Fmi2Status::try_from_code(code) {
            Ok(status) => match dec_u8(b, p0) {
                Some((tag, p1)) => {
                    if tag == 1 && status.is_at_most_warning() {
                        match dec_values(b, p1) {
                            Some((v, p2)) => {
                                if p2 == b.len() {
                                    proof {
                                        assert(b@.skip(p2 as int).len() == 0);
                                    }
                                    let vkind = v.kind();
                                    if vkind == kind {
                                        Some((status, Some(v)))
                                    } else {
                                        None
                                    }
                                } else {
                                    None
                                }
                            },
                            None => None,
                        }
                    } else if tag == 0 && !status.is_at_most_warning() {
                        if p1 == b.len() {
                            proof {
                                assert(b@.skip(p1 as int).len() == 0);
                            }
                            Some((status, None))
                        } else {
                            None
                        }
                    } else {
                        None
                    }
                },
                None => None,
            },
            Err(_) => None,
        },
        None => None,
    }
}

/// Whatever bytes arrive, a decoded get-reply hands out values exactly
/// when its status is no more severe than a warning — a caller can never
/// observe values beside a severe status.
pub proof fn lemma_get_reply_severity(b: Seq<u8>, kind: Fmi2ValueKind)
    ensures
        (match spec_dec_get_reply(b, kind) {
            Some((status, values)) => get_reply_wf(status, values),
            None => true,
        }),
{
}

/// Round trip: every well-formed get-reply comes back unchanged from its
/// own encoding.
pub proof fn lemma_get_reply_round_trip(
    status: Fmi2Status,
    values: Option<ValuesView>,
    kind: Fmi2ValueKind,
)
    requires
        get_reply_wf(status, values),
        (match values {
            Some(v) => v.encodable() && v.kind() == kind,
            None => true,
        }),
    ensures
        spec_dec_get_reply(spec_enc_get_reply(status, values), kind) == Some((status, values)),
{
    let b = spec_enc_get_reply(status, values);
    let e = Seq::<u8>::empty();
    match values {
        None => {
            let t0 = seq![0u8];
            assert(b =~= spec_enc_i32(status.code() as i32) + t0);
            lemma_dec_enc_i32(status.code() as i32, t0);
            assert(t0 =~= spec_enc_u8(0) + e);
            lemma_dec_enc_u8(0, e);
        },
        Some(v) => {
            let t0 = seq![1u8] + spec_enc_values(v);
            assert(b =~= spec_enc_i32(status.code() as i32) + t0);
            lemma_dec_enc_i32(status.code() as i32, t0);
            assert(t0 =~= spec_enc_u8(1) + (spec_enc_values(v) + e));
            lemma_dec_enc_u8(1, spec_enc_values(v) + e);
            lemma_dec_enc_values(v, e);
        },
    }
}

// ------------------------------ handshake ------------------------------

/// The one-time readiness signal of a freshly spawned slave process: a
/// single length-prefixed byte string.
pub open spec fn spec_enc_handshake(payload: Seq<u8>) -> Seq<u8> {
    spec_enc_bytes(payload)
}

pub open spec fn spec_dec_handshake(b: Seq<u8>) -> Option<Seq<u8>> {
    match spec_dec_bytes(b) {
        Some((payload, rest)) => if rest.len() == 0 {
            Some(payload)
        } else {
            None
        },
        None => None,
    }
}

/// Serializes a handshake message, as the child-process counterpart must.
pub fn encode_handshake(payload: &Vec<u8>) -> (r: Vec<u8>)
    requires
        payload@.len() <= u32::MAX,
    ensures
        r@ == spec_enc_handshake(payload@),
{
    let mut out: Vec<u8> = Vec::new();
    enc_bytes(&mut out, payload);
    proof {
        assert(out@ =~= spec_enc_handshake(payload@));
    }
    out
}

/// Validates the handshake a new slave process sent; a malformed payload
/// is an instantiation failure.
pub fn decode_handshake(b: &Vec<u8>) -> (r: Option<Vec<u8>>)
    ensures
        (match r {
            Some(payload) => spec_dec_handshake(b@) == Some(payload@),
            None => spec_dec_handshake(b@) is None,
        }),
{
    proof {
        assert(b@.skip(0) =~= b@);
    }
    match dec_bytes(b, 0) {
        Some((payload, next)) => {
            if next == b.len() {
                proof {
                    assert(b@.skip(next as int).len() == 0);
                }
                Some(payload)
            } else {
                None
            }
        },
        None => None,
    }
}

/// Round trip: every handshake payload is recognized in its own encoding.
pub proof fn lemma_handshake_round_trip(payload: Seq<u8>)
    requires
        payload.len() <= u32::MAX,
    ensures
        spec_dec_handshake(spec_enc_handshake(payload)) == Some(payload),
{
    let e = Seq::<u8>::empty();
    assert(spec_enc_handshake(payload) =~= spec_enc_bytes(payload) + e);
    lemma_dec_enc_bytes(payload, e);
}

// ------------------------------ framing ------------------------------

/// Every message crosses the stream as a 32-bit length followed by that
/// many payload bytes.
pub open spec fn spec_frame(msg: Seq<u8>) -> Seq<u8> {
    spec_enc_u32(msg.len() as u32) + msg
}

/// Wraps a serialized message for the stream.
pub fn frame_message(msg: &Vec<u8>) -> (r: Vec<u8>)
    requires
        msg@.len() <= u32::MAX,
    ensures
        r@ == spec_frame(msg@),
{
    let mut out: Vec<u8> = Vec::new();
    enc_u32(&mut out, msg.len() as u32);
    out.extend_from_slice(msg.as_slice());
    proof {
        assert(out@ =~= spec_frame(msg@));
    }
    out
}

/// Reads the payload length out of a frame header of exactly four bytes.
pub fn read_frame_len(header: &Vec<u8>) -> (r: Option<u32>)
    ensures
        (match r {
            Some(n) => header@.len() == 4 && (forall|msg: Seq<u8>|
                msg.len() <= u32::MAX && spec_frame(msg).take(4) == header@ ==> msg.len() == n),
            None => header@.len() != 4,
        }),
{
    if header.len() == 4 {
        proof {
            assert(header@.skip(0) =~= header@);
        }
        match dec_u32(header, 0) {
            Some((n, _next)) => {
                proof {
                    vstd::bytes::lemma_auto_spec_u32_to_from_le_bytes();
                    assert forall|msg: Seq<u8>|
                        msg.len() <= u32::MAX && spec_frame(msg).take(4) == header@
                            implies msg.len() == n by {
                        assert(spec_frame(msg).take(4) =~= spec_enc_u32(msg.len() as u32));
                        assert(header@.take(4) =~= header@);
                    }
                }
                Some(n)
            },
            None => {
                proof {
                    assert(header@.skip(0).len() == 4);
                }
                None
            },
        }
    } else {
        None
    }
}

/// Round trip: a framed message declares exactly its payload's length, and
/// the payload follows the header unchanged.
pub proof fn lemma_frame_round_trip(msg: Seq<u8>)
    requires
        msg.len() <= u32::MAX,
    ensures
        spec_dec_u32(spec_frame(msg)) == Some((msg.len() as u32, msg)),
{
    lemma_dec_enc_u32(msg.len() as u32, msg);
}

} // verus!

verus! {

/// No two distinct encodable commands share an encoding: the opcode and
/// the argument layout identify a command unambiguously on the wire.
pub proof fn lemma_command_encoding_injective(a: CommandView, b: CommandView)
    requires
        a.encodable(),
        b.encodable(),
        spec_enc_command(a) == spec_enc_command(b),
    ensures
        a == b,
{
    lemma_command_round_trip(a);
    lemma_command_round_trip(b);
}

} // verus!

verus! {

// ------------------------------ canonicity ------------------------------

/// A decoded value batch came from exactly its own encoding, and it is
/// encodable again.
pub proof fn lemma_values_decode_canonical(b: Seq<u8>)
    ensures
        (match spec_dec_values(b) {
            Some((v, rest)) => b == spec_enc_values(v) + rest && v.encodable(),
            None => true,
        }),
{
    lemma_enc_dec_u8(b);
    match spec_dec_u8(b) {
        Some((tag, r0)) => {
            if tag == 0 {
                lemma_enc_dec_u64_list(r0);
                match spec_dec_u64_list(r0) {
                    Some((xs, r1)) => {
                        assert(b =~= spec_enc_values(ValuesView::Real(xs)) + r1);
                    },
                    None => {},
                }
            } else if tag == 1 {
                lemma_enc_dec_i32_list(r0);
                match spec_dec_i32_list(r0) {
                    Some((xs, r1)) => {
                        assert(b =~= spec_enc_values(ValuesView::Integer(xs)) + r1);
                    },
                    None => {},
                }
            } else if tag == 2 {
                lemma_enc_dec_bool_list(r0);
                match spec_dec_bool_list(r0) {
                    Some((xs, r1)) => {
                        assert(b =~= spec_enc_values(ValuesView::Boolean(xs)) + r1);
                    },
                    None => {},
                }
            } else if tag == 3 {
                lemma_enc_dec_bytes_list(r0);
                match spec_dec_bytes_list(r0) {
                    Some((xs, r1)) => {
                        assert(b =~= spec_enc_values(ValuesView::Text(xs)) + r1);
                    },
                    None => {},
                }
            }
        },
        None => {},
    }
}

/// The command decoder accepts nothing but encodings: a message that
/// decodes is exactly the encoding of the command it decodes to. With the
/// round trip the other way, the wire holds one message per command and
/// one command per message.
pub proof fn lemma_command_decode_canonical(b: Seq<u8>)
    ensures
        (match spec_dec_command(b) {
            Some(c) => b == spec_enc_command(c) && c.encodable(),
            None => true,
        }),
{
    let e = Seq::<u8>::empty();
    lemma_enc_dec_u8(b);
    match spec_dec_u8(b) {
        None => {},
        Some((op, r0)) => {
            if op == 0 {
                lemma_enc_dec_bytes_list(r0);
                match spec_dec_bytes_list(r0) {
                    Some((categories, r1)) => {
                        lemma_enc_dec_bool(r1);
                        match spec_dec_bool(r1) {
                            Some((logging_on, r2)) => {
                                if r2.len() == 0 {
                                    assert(r2 =~= e);
                                    assert(spec_enc_bool(logging_on) + e =~= spec_enc_bool(
                                        logging_on,
                                    ));
                                    assert(b =~= spec_enc_command(
                                        (CommandView::SetDebugLogging { categories, logging_on }),
                                    ));
                                }
                            },
                            None => {},
                        }
                    },
                    None => {},
                }
            } else if op == 1 {
                lemma_enc_dec_u64(r0);
                match spec_dec_u64(r0) {
                    Some((start_time, r1)) => {
                        lemma_enc_dec_opt_u64(r1);
                        match spec_dec_opt_u64(r1) {
                            Some((tolerance, r2)) => {
                                lemma_enc_dec_opt_u64(r2);
                                match spec_dec_opt_u64(r2) {
                                    Some((stop_time, r3)) => {
                                        if r3.len() == 0 {
                                            assert(r3 =~= e);
                                            assert(spec_enc_opt_u64(stop_time) + e
                                                =~= spec_enc_opt_u64(stop_time));
                                            assert(b =~= spec_enc_command(
                                                (CommandView::SetupExperiment {
                                                    start_time,
                                                    tolerance,
                                                    stop_time,
                                                }),
                                            ));
                                        }
                                    },
                                    None => {},
                                }
                            },
                            None => {},
                        }
                    },
                    None => {},
                }
            } else if op == 2 {
                if r0.len() == 0 {
                    assert(b =~= spec_enc_command(CommandView::EnterInitializationMode));
                }
            } else if op == 3 {
                if r0.len() == 0 {
                    assert(b =~= spec_enc_command(CommandView::ExitInitializationMode));
                }
            } else if op == 4 {
                if r0.len() == 0 {
                    assert(b =~= spec_enc_command(CommandView::Terminate));
                }
            } else if op == 5 {
                if r0.len() == 0 {
                    assert(b =~= spec_enc_command(CommandView::Reset));
                }
            } else if op == 6 {
                lemma_enc_dec_u32_list(r0);
                match spec_dec_u32_list(r0) {
                    Some((references, r1)) => {
                        lemma_values_decode_canonical(r1);
                        match spec_dec_values(r1) {
                            Some((values, r2)) => {
                                if r2.len() == 0 {
                                    assert(r2 =~= e);
                                    assert(spec_enc_values(values) + e =~= spec_enc_values(
                                        values,
                                    ));
                                    assert(b =~= spec_enc_command(
                                        (CommandView::SetValues { references, values }),
                                    ));
                                }
                            },
                            None => {},
                        }
                    },
                    None => {},
                }
            } else if op == 7 {
                lemma_enc_dec_u8(r0);
                match spec_dec_u8(r0) {
                    Some((tag, r1)) => {
                        if tag <= 3 {
                            lemma_enc_dec_u32_list(r1);
                            match spec_dec_u32_list(r1) {
                                Some((references, r2)) => {
                                    if r2.len() == 0 {
                                        assert(r2 =~= e);
                                        let kind = if tag == 0 {
                                            Fmi2ValueKind::Real
                                        } else if tag == 1 {
                                            Fmi2ValueKind::Integer
                                        } else if tag == 2 {
                                            Fmi2ValueKind::Boolean
                                        } else {
                                            Fmi2ValueKind::Text
                                        };
                                        assert(kind.tag() as u8 == tag);
                                        assert(spec_enc_u32_list(references) + e
                                            =~= spec_enc_u32_list(references));
                                        assert(b =~= spec_enc_command(
                                            (CommandView::GetValues { kind, references }),
                                        ));
                                    }
                                },
                                None => {},
                            }
                        }
                    },
                    None => {},
                }
            } else if op == 8 {
                lemma_enc_dec_u64(r0);
                match spec_dec_u64(r0) {
                    Some((current_time, r1)) => {
                        lemma_enc_dec_u64(r1);
                        match spec_dec_u64(r1) {
                            Some((step_size, r2)) => {
                                lemma_enc_dec_bool(r2);
                                match spec_dec_bool(r2) {
                                    Some((no_set_state_prior, r3)) => {
                                        if r3.len() == 0 {
                                            assert(r3 =~= e);
                                            assert(spec_enc_bool(no_set_state_prior) + e
                                                =~= spec_enc_bool(no_set_state_prior));
                                            assert(b =~= spec_enc_command(
                                                (CommandView::DoStep {
                                                    current_time,
                                                    step_size,
                                                    no_set_state_prior,
                                                }),
                                            ));
                                        }
                                    },
                                    None => {},
                                }
                            },
                            None => {},
                        }
                    },
                    None => {},
                }
            } else if op == 9 {
                if r0.len() == 0 {
                    assert(b =~= spec_enc_command(CommandView::FreeInstance));
                }
            }
        },
    }
}

/// A bare status reply that decodes is exactly the encoding of its status.
pub proof fn lemma_status_reply_decode_canonical(b: Seq<u8>)
    ensures
        (match spec_dec_status_reply(b) {
            Some(status) => b == spec_enc_status_reply(status),
            None => true,
        }),
{
    lemma_enc_dec_i32(b);
    match spec_dec_i32(b) {
        Some((code, rest)) => {
            if rest.len() == 0 {
                match Fmi2Status::spec_from_code(code as int) {
                    Some(status) => {
                        assert(status.code() as i32 == code);
                        assert(b =~= spec_enc_i32(code) + rest);
                        assert(b =~= spec_enc_status_reply(status));
                    },
                    None => {},
                }
            }
        },
        None => {},
    }
}

/// A get-reply that decodes is exactly the encoding of its status and
/// values: the parent accepts one reply per outcome and nothing else.
pub proof fn lemma_get_reply_decode_canonical(b: Seq<u8>, kind: Fmi2ValueKind)
    ensures
        (match spec_dec_get_reply(b, kind) {
            Some((status, values)) => b == spec_enc_get_reply(status, values),
            None => true,
        }),
{
    lemma_enc_dec_i32(b);
    match spec_dec_i32(b) {
        Some((code, r0)) => {
            match Fmi2Status::spec_from_code(code as int) {
                Some(status) => {
                    assert(status.code() as i32 == code);
                    lemma_enc_dec_u8(r0);
                    match spec_dec_u8(r0) {
                        Some((tag, r1)) => {
                            if tag == 1 && status.spec_at_most_warning() {
                                lemma_values_decode_canonical(r1);
                                match spec_dec_values(r1) {
                                    Some((v, r2)) => {
                                        if r2.len() == 0 && v.kind() == kind {
                                            assert(r2 =~= Seq::<u8>::empty());
                                            assert(spec_enc_values(v) + Seq::<u8>::empty()
                                                =~= spec_enc_values(v));
                                            assert(seq![1u8] + spec_enc_values(v) =~= spec_enc_u8(
                                                1,
                                            ) + spec_enc_values(v));
                                            assert(b =~= spec_enc_get_reply(status, Some(v)));
                                        }
                                    },
                                    None => {},
                                }
                            } else if tag == 0 && !status.spec_at_most_warning() {
                                if r1.len() == 0 {
                                    assert(seq![0u8] =~= spec_enc_u8(0));
                                    assert(b =~= spec_enc_get_reply(status, None));
                                }
                            }
                        },
                        None => {},
                    }
                },
                None => {},
            }
        },
        None => {},
    }
}

/// A handshake that decodes is exactly the encoding of its payload.
pub proof fn lemma_handshake_decode_canonical(b: Seq<u8>)
    ensures
        (match spec_dec_handshake(b) {
            Some(payload) => b == spec_enc_handshake(payload),
            None => true,
        }),
{
    lemma_enc_dec_bytes(b);
    match spec_dec_bytes(b) {
        Some((payload, rest)) => {
            if rest.len() == 0 {
                assert(b =~= spec_enc_bytes(payload) + rest);
                assert(b =~= spec_enc_handshake(payload));
            }
        },
        None => {},
    }
}

} // verus!
