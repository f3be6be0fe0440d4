use crate::types::{DelayType, Encoding, HashAlgorithm};
use vstd::prelude::*;

verus! {

/// The name of a block's input port.
pub type InputPortName = String;

/// The name of a block's output port.
pub type OutputPortName = String;

/// The configuration of a block, one variant per kind of block.
#[derive(Clone, Debug)]
pub enum BlockConfig {
    Buffer {
        input: InputPortName,
    },
    Const {
        output: OutputPortName,
        value: String,
    },
    Count {
        input: InputPortName,
        output: Option<OutputPortName>,
        count: OutputPortName,
    },
    Decode {
        input: InputPortName,
        output: OutputPortName,
        encoding: Encoding,
    },
    Delay {
        input: InputPortName,
        output: OutputPortName,
        delay: DelayType,
    },
    Drop {
        input: InputPortName,
    },
    Encode {
        input: InputPortName,
        output: OutputPortName,
        encoding: Encoding,
    },
    EncodeHex {
        input: InputPortName,
        output: OutputPortName,
    },
    Hash {
        input: InputPortName,
        output: Option<OutputPortName>,
        hash: OutputPortName,
        algorithm: HashAlgorithm,
    },
    Random {
        output: OutputPortName,
        seed: Option<u64>,
    },
    ReadDir {
        path: InputPortName,
        output: OutputPortName,
    },
    ReadEnv {
        name: InputPortName,
        output: OutputPortName,
    },
    ReadFile {
        path: InputPortName,
        output: OutputPortName,
    },
    ReadStdin {
        output: OutputPortName,
        buffer_size: Option<usize>,
    },
    WriteFile {
        path: InputPortName,
        input: InputPortName,
    },
    WriteStderr {
        input: InputPortName,
    },
    WriteStdout {
        input: InputPortName,
    },
}

impl BlockConfig {
    /// The name of the configured block.
    pub open spec fn spec_name(&self) -> Seq<char> {
        match self {
            BlockConfig::Buffer { .. } => "Buffer"@,
            BlockConfig::Const { .. } => "Const"@,
            BlockConfig::Count { .. } => "Count"@,
            BlockConfig::Decode { .. } => "Decode"@,
            BlockConfig::Delay { .. } => "Delay"@,
            BlockConfig::Drop { .. } => "Drop"@,
            BlockConfig::Encode { .. } => "Encode"@,
            BlockConfig::EncodeHex { .. } => "EncodeHex"@,
            BlockConfig::Hash { .. } => "Hash"@,
            BlockConfig::Random { .. } => "Random"@,
            BlockConfig::ReadDir { .. } => "ReadDir"@,
            BlockConfig::ReadEnv { .. } => "ReadEnv"@,
            BlockConfig::ReadFile { .. } => "ReadFile"@,
            BlockConfig::ReadStdin { .. } => "ReadStdin"@,
            BlockConfig::WriteFile { .. } => "WriteFile"@,
            BlockConfig::WriteStderr { .. } => "WriteStderr"@,
            BlockConfig::WriteStdout { .. } => "WriteStdout"@,
        }
    }

    /// The name of the configured block.
    pub fn name(&self) -> (n: &'static str)
        ensures
            n@ == self.spec_name(),
    {
        match self {
            BlockConfig::Buffer { .. } => "Buffer",
            BlockConfig::Const { .. } => "Const",
            BlockConfig::Count { .. } => "Count",
            BlockConfig::Decode { .. } => "Decode",
            BlockConfig::Delay { .. } => "Delay",
            BlockConfig::Drop { .. } => "Drop",
            BlockConfig::Encode { .. } => "Encode",
            BlockConfig::EncodeHex { .. } => "EncodeHex",
            BlockConfig::Hash { .. } => "Hash",
            BlockConfig::Random { .. } => "Random",
            BlockConfig::ReadDir { .. } => "ReadDir",
            BlockConfig::ReadEnv { .. } => "ReadEnv",
            BlockConfig::ReadFile { .. } => "ReadFile",
            BlockConfig::ReadStdin { .. } => "ReadStdin",
            BlockConfig::WriteFile { .. } => "WriteFile",
            BlockConfig::WriteStderr { .. } => "WriteStderr",
            BlockConfig::WriteStdout { .. } => "WriteStdout",
        }
    }
}

} // verus!
