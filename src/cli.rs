//! The command lines of the sound-file tools: which operation a list of
//! arguments asks for, checked before any file is touched. Running the
//! chosen operation is the caller's part.
use vstd::prelude::*;
use crate::text::{parse_i32, parse_i32_spec, parse_u32, parse_u32_spec};
use crate::wav::HousekeepError;
use vstd::string::StringSliceAdditionalSpecFns;

verus! {

/// The bytes of an argument.
pub open spec fn arg_bytes(s: &str) -> Seq<u8> {
    s.spec_bytes()
}

/// `copy`
pub open spec fn w_copy() -> Seq<u8> {
    seq![99u8, 111, 112, 121]
}

/// `chans`
pub open spec fn w_chans() -> Seq<u8> {
    seq![99u8, 104, 97, 110, 115]
}

/// `loudness`
pub open spec fn w_loudness() -> Seq<u8> {
    seq![108u8, 111, 117, 100, 110, 101, 115, 115]
}

/// `props`
pub open spec fn w_props() -> Seq<u8> {
    seq![112u8, 114, 111, 112, 115]
}

/// `-p`
pub open spec fn w_invert() -> Seq<u8> {
    seq![45u8, 112]
}

/// `-l`
pub open spec fn w_level() -> Seq<u8> {
    seq![45u8, 108]
}

/// Whether the bytes of `s` are `w`.
fn is_word(s: &str, w: &[u8]) -> (r: bool)
    ensures
        r == (arg_bytes(s) == w@),
{
    let b = s.as_bytes();
    if b.len() != w.len() {
        return false;
    }
    let mut i: usize = 0;
    while i < b.len()
        invariant
            b@ == s.spec_bytes(),
            b@.len() == w@.len(),
            i <= b@.len(),
            forall|j: int| 0 <= j < i ==> b@[j] == w@[j],
        decreases b@.len() - i,
    {
        if b[i] != w[i] {
            return false;
        }
        i += 1;
    }
    assert(b@ =~= w@);
    true
}

/// Whether the bytes of `s` start with `w`.
fn starts_with_word(s: &str, w: &[u8]) -> (r: bool)
    ensures
        r == (w@.len() <= arg_bytes(s).len() && arg_bytes(s).subrange(0, w@.len() as int) == w@),
{
    let b = s.as_bytes();
    if b.len() < w.len() {
        return false;
    }
    let mut i: usize = 0;
    while i < w.len()
        invariant
            b@ == s.spec_bytes(),
            w@.len() <= b@.len(),
            i <= w@.len(),
            forall|j: int| 0 <= j < i ==> b@[j] == w@[j],
        decreases w@.len() - i,
    {
        if b[i] != w[i] {
            assert(b@.subrange(0, w@.len() as int)[i as int] != w@[i as int]);
            return false;
        }
        i += 1;
    }
    assert(b@.subrange(0, w@.len() as int) =~= w@);
    true
}

/// The mode number of an argument: its `i32` value, or 1 when it is not
/// a number.
pub open spec fn mode_of(s: &str) -> i32 {
    match parse_i32_spec(arg_bytes(s)) {
        Some(v) => v,
        None => 1,
    }
}

fn mode_arg(s: &str) -> (r: i32)
    ensures
        r == mode_of(s),
{
    match parse_i32(s.as_bytes()) {
        Some(v) => v,
        None => 1,
    }
}

/// A channel operation.
#[derive(Debug, Clone, PartialEq, Eq)]
pub enum ChansCommand {
    /// Write channel `channel` (1-based) of `input` to its own file.
    ExtractChannel { input: String, channel: usize },
    /// Mix `input` down to one channel into `output`.
    MixToMono { input: String, output: String, invert_phase: bool },
}

/// A file operation.
#[derive(Debug, Clone, PartialEq, Eq)]
pub enum HousekeepCommand {
    /// Copy `input` to `output`, rewriting its marker chunks.
    Copy { input: String, output: String },
    /// A channel operation.
    Chans(ChansCommand),
}

/// What choosing the channel operation of mode `mode` with arguments
/// `args` gives: 1 extracts a channel (`infile channo`), 4 mixes to mono
/// (`infile outfile [-p]`); other modes are not provided.
pub open spec fn chans_result(mode: i32, args: Seq<&str>, r: Result<ChansCommand, HousekeepError>) -> bool {
    &&& (mode != 1 && mode != 4 ==> r is Err && r->Err_0 is UnsupportedFormat)
    &&& ((mode == 1 || mode == 4) && args.len() < 2 ==> r is Err && r->Err_0 is InvalidFile)
    &&& (mode == 1 && args.len() >= 2 ==> match parse_u32_spec(arg_bytes(args[1])) {
        Some(c) => r is Ok && (r->Ok_0 matches ChansCommand::ExtractChannel { input, channel }
            && input@ == args[0]@ && channel == c),
        None => r is Err && r->Err_0 is InvalidFile,
    })
    &&& (mode == 4 && args.len() >= 2 ==> r is Ok && (r->Ok_0 matches ChansCommand::MixToMono {
        input,
        output,
        invert_phase,
    } && input@ == args[0]@ && output@ == args[1]@ && invert_phase == (args.len() > 2
        && arg_bytes(args[2]) == w_invert())))
}

/// Chooses the channel operation of mode `mode` with arguments `args`.
#[verifier::rlimit(40)]
pub fn chans(mode: i32, args: &[&str]) -> (r: Result<ChansCommand, HousekeepError>)
    ensures
        chans_result(mode, args@, r),
{
    if mode == 1 {
        if args.len() < 2 {
            return Err(HousekeepError::InvalidFile(String::from_str("Usage: chans 1 infile channo")));
        }
        let b = args[1].as_bytes();
        match parse_u32(b, 0, b.len()) {
            Some(c) => {
                assert(b@.subrange(0, b@.len() as int) =~= b@);
                Ok(ChansCommand::ExtractChannel { input: args[0].to_owned(), channel: c as usize })
            },
            None => {
                assert(b@.subrange(0, b@.len() as int) =~= b@);
                Err(HousekeepError::InvalidFile(String::from_str("Invalid channel number")))
            },
        }
    } else if mode == 4 {
        if args.len() < 2 {
            return Err(
                HousekeepError::InvalidFile(String::from_str("Usage: chans 4 infile outfile [-p]")),
            );
        }
        let p: [u8; 2] = [45, 112];
        assert(p@ =~= w_invert());
        let invert_phase = args.len() > 2 && is_word(args[2], p.as_slice());
        Ok(
            ChansCommand::MixToMono {
                input: args[0].to_owned(),
                output: args[1].to_owned(),
                invert_phase,
            },
        )
    } else {
        Err(HousekeepError::UnsupportedFormat(String::from_str("Unknown or unprovided chans mode")))
    }
}

/// Checks the mode of a copy: only mode 1 (copy with marker chunks) is
/// provided.
pub fn copy_mode(mode: i32) -> (r: Result<(), HousekeepError>)
    ensures
        r is Ok <==> mode == 1,
        r is Err ==> r->Err_0 is UnsupportedFormat,
{
    if mode == 1 {
        Ok(())
    } else {
        Err(HousekeepError::UnsupportedFormat(String::from_str("Mode not provided")))
    }
}

/// The channel operation within the outcome of `housekeep`.
pub open spec fn chans_part(r: Result<HousekeepCommand, HousekeepError>) -> Result<
    ChansCommand,
    HousekeepError,
> {
    match r {
        Ok(HousekeepCommand::Chans(c)) => Ok(c),
        Ok(_) => arbitrary(),
        Err(e) => Err(e),
    }
}

/// Chooses the file operation that `operation` and `args` ask for:
/// `copy mode infile outfile` or `chans mode args...`.
#[verifier::rlimit(40)]
pub fn housekeep(operation: &str, args: &[&str]) -> (r: Result<HousekeepCommand, HousekeepError>)
    ensures
        arg_bytes(operation) != w_copy() && arg_bytes(operation) != w_chans() ==> r is Err
            && r->Err_0 is UnsupportedFormat,
        arg_bytes(operation) == w_copy() ==> if args@.len() < 3 {
            r is Err && r->Err_0 is InvalidFile
        } else if mode_of(args@[0]) != 1 {
            r is Err && r->Err_0 is UnsupportedFormat
        } else {
            r is Ok && (r->Ok_0 matches HousekeepCommand::Copy { input, output } && input@
                == args@[1]@ && output@ == args@[2]@)
        },
        arg_bytes(operation) == w_chans() ==> if args@.len() == 0 {
            r is Err && r->Err_0 is InvalidFile
        } else {
            (r is Ok ==> r->Ok_0 is Chans) && chans_result(
                mode_of(args@[0]),
                args@.drop_first(),
                chans_part(r),
            )
        },
{
    let wc: [u8; 4] = [99, 111, 112, 121];
    let wh: [u8; 5] = [99, 104, 97, 110, 115];
    assert(wc@ =~= w_copy());
    assert(wh@ =~= w_chans());
    if is_word(operation, wc.as_slice()) {
        if args.len() < 3 {
            return Err(
                HousekeepError::InvalidFile(String::from_str("Usage: copy <mode> <infile> <outfile>")),
            );
        }
        let mode = mode_arg(args[0]);
        copy_mode(mode)?;
        Ok(HousekeepCommand::Copy { input: args[1].to_owned(), output: args[2].to_owned() })
    } else if is_word(operation, wh.as_slice()) {
        if args.len() == 0 {
            return Err(
                HousekeepError::InvalidFile(String::from_str("Usage: chans <mode> <infile> [args...]")),
            );
        }
        let mode = mode_arg(args[0]);
        let mut rest: Vec<&str> = Vec::new();
        let mut i: usize = 1;
        while i < args.len()
            invariant
                1 <= i <= args@.len(),
                rest@ == args@.subrange(1, i as int),
            decreases args@.len() - i,
        {
            rest.push(args[i]);
            i += 1;
            assert(rest@ =~= args@.subrange(1, i as int));
        }
        assert(rest@ =~= args@.drop_first());
        let r = chans(mode, rest.as_slice());
        match r {
            Ok(c) => Ok(HousekeepCommand::Chans(c)),
            Err(e) => Err(e),
        }
    } else {
        Err(HousekeepError::UnsupportedFormat(String::from_str("Unknown operation")))
    }
}

/// Errors of the sound modifications.
#[derive(Debug, PartialEq, Eq)]
pub enum ModifyError {
    /// A read or write failed; the message says why.
    Io(String),
    /// An argument is refused; the message says why.
    InvalidParameter(String),
    /// The operation failed while it ran.
    ProcessingError(String),
    /// The operation or mode is not provided.
    UnsupportedOperation(String),
}

/// A loudness operation. Gains and levels stay text: the caller reads
/// them as numbers.
#[derive(Debug, Clone, PartialEq, Eq)]
pub enum LoudnessCommand {
    /// Multiply every sample by `gain`.
    Gain { input: String, output: String, gain: String },
    /// Multiply every sample by `db` decibels.
    DbGain { input: String, output: String, db: String },
    /// Scale to a peak of `level` (the text after `-l`), or of 1.
    Normalize { input: String, output: String, level: Option<String> },
    /// Negate every sample.
    InvertPhase { input: String, output: String },
}

/// What choosing the loudness operation of mode `mode` with `args` gives:
/// 1 gain, 2 gain in decibels (`infile outfile gain`), 3 normalize
/// (`infile outfile [-llevel]`), 6 phase inversion (`infile outfile`).
pub open spec fn loudness_result(mode: i32, args: Seq<&str>, r: Result<LoudnessCommand, ModifyError>) -> bool {
    &&& (mode != 1 && mode != 2 && mode != 3 && mode != 6 ==> r is Err
        && r->Err_0 is UnsupportedOperation)
    &&& ((mode == 1 || mode == 2) && args.len() < 3 ==> r is Err && r->Err_0 is InvalidParameter)
    &&& ((mode == 3 || mode == 6) && args.len() < 2 ==> r is Err && r->Err_0 is InvalidParameter)
    &&& (mode == 1 && args.len() >= 3 ==> r is Ok && (r->Ok_0 matches LoudnessCommand::Gain {
        input,
        output,
        gain,
    } && input@ == args[0]@ && output@ == args[1]@ && gain@ == args[2]@))
    &&& (mode == 2 && args.len() >= 3 ==> r is Ok && (r->Ok_0 matches LoudnessCommand::DbGain {
        input,
        output,
        db,
    } && input@ == args[0]@ && output@ == args[1]@ && db@ == args[2]@))
    &&& (mode == 3 && args.len() >= 2 ==> r is Ok && (r->Ok_0 matches LoudnessCommand::Normalize {
        input,
        output,
        level,
    } && input@ == args[0]@ && output@ == args[1]@ && if args.len() > 2 && w_level().len()
        <= arg_bytes(args[2]).len() && arg_bytes(args[2]).subrange(0, 2) == w_level() {
        level is Some && level->Some_0@ == args[2]@
    } else {
        level is None
    }))
    &&& (mode == 6 && args.len() >= 2 ==> r is Ok && (r->Ok_0 matches LoudnessCommand::InvertPhase {
        input,
        output,
    } && input@ == args[0]@ && output@ == args[1]@))
}

/// Chooses the loudness operation of mode `mode` with arguments `args`.
/// For normalizing, the level is the whole `-l` argument.
#[verifier::rlimit(40)]
pub fn loudness(mode: i32, args: &[&str]) -> (r: Result<LoudnessCommand, ModifyError>)
    ensures
        loudness_result(mode, args@, r),
{
    if mode == 1 || mode == 2 {
        if args.len() < 3 {
            return Err(
                ModifyError::InvalidParameter(String::from_str("Usage: loudness mode infile outfile gain")),
            );
        }
        let input = args[0].to_owned();
        let output = args[1].to_owned();
        let value = args[2].to_owned();
        if mode == 1 {
            Ok(LoudnessCommand::Gain { input, output, gain: value })
        } else {
            Ok(LoudnessCommand::DbGain { input, output, db: value })
        }
    } else if mode == 3 || mode == 6 {
        if args.len() < 2 {
            return Err(
                ModifyError::InvalidParameter(String::from_str("Usage: loudness mode infile outfile")),
            );
        }
        let input = args[0].to_owned();
        let output = args[1].to_owned();
        if mode == 6 {
            return Ok(LoudnessCommand::InvertPhase { input, output });
        }
        let l: [u8; 2] = [45, 108];
        assert(l@ =~= w_level());
        let level = if args.len() > 2 && starts_with_word(args[2], l.as_slice()) {
            Some(args[2].to_owned())
        } else {
            None
        };
        Ok(LoudnessCommand::Normalize { input, output, level })
    } else {
        Err(ModifyError::UnsupportedOperation(String::from_str("Loudness mode not provided")))
    }
}

/// Chooses the modification `operation` (only `loudness`) with mode
/// `mode` and arguments `args`.
pub fn modify(operation: &str, mode: i32, args: &[&str]) -> (r: Result<LoudnessCommand, ModifyError>)
    ensures
        arg_bytes(operation) == w_loudness() ==> loudness_result(mode, args@, r),
        arg_bytes(operation) != w_loudness() ==> r is Err && r->Err_0 is UnsupportedOperation,
{
    let w: [u8; 8] = [108, 111, 117, 100, 110, 101, 115, 115];
    assert(w@ =~= w_loudness());
    if is_word(operation, w.as_slice()) {
        loudness(mode, args)
    } else {
        Err(ModifyError::UnsupportedOperation(String::from_str("Unknown operation")))
    }
}

/// Errors of the sound-file reports.
#[derive(Debug, PartialEq, Eq)]
pub enum SndinfoError {
    /// A read failed; the message says why.
    Io(String),
    /// The file or an argument is refused; the message says why.
    InvalidFile(String),
    /// The operation is not provided.
    UnsupportedOperation(String),
}

/// Chooses the report `operation` (only `props infile`): gives the file
/// to report on.
pub fn sndinfo(operation: &str, args: &[&str]) -> (r: Result<String, SndinfoError>)
    ensures
        arg_bytes(operation) == w_props() && args@.len() >= 1 ==> r is Ok && r->Ok_0@
            == args@[0]@,
        arg_bytes(operation) == w_props() && args@.len() == 0 ==> r is Err && r->Err_0 is InvalidFile,
        arg_bytes(operation) != w_props() ==> r is Err && r->Err_0 is UnsupportedOperation,
{
    let w: [u8; 5] = [112, 114, 111, 112, 115];
    assert(w@ =~= w_props());
    if is_word(operation, w.as_slice()) {
        if args.len() == 0 {
            return Err(SndinfoError::InvalidFile(String::from_str("Usage: sndinfo props <infile>")));
        }
        Ok(args[0].to_owned())
    } else {
        Err(SndinfoError::UnsupportedOperation(String::from_str("Unknown operation")))
    }
}

} // verus!
