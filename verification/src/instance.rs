use crate::block_config::{
    BlockConfig, CoreBlockConfig, FlowBlockConfig, HashBlocksConfig, IoBlockConfig,
    MathBlockConfig, SysBlockConfig, TextBlockConfig,
};
use crate::sys::{ReadSocketConfig, WriteFlags, WriteSocketConfig, DEFAULT_STDIN_BUFFER_SIZE};
use crate::tags::BlockTag;
use crate::types::{DelayType, Encoding, HashAlgorithm, NANOS_PER_SEC};
use vstd::prelude::*;

verus! {

/// A block to run: which block it is, with every parameter resolved.
#[derive(Debug)]
pub enum BlockInstance {
    Buffer,
    Const { value: String },
    Count,
    Delay(DelayType),
    Drop,
    Random { seed: Option<u64> },
    Gate,
    Hash(HashAlgorithm),
    Decode(Encoding),
    DecodeHex,
    DecodeJson,
    Encode(Encoding),
    EncodeHex,
    EncodeJson,
    Add,
    Div,
    Mul,
    Sub,
    ReadDir,
    ReadEnv,
    ReadFile,
    ReadSocket(ReadSocketConfig),
    ReadStdin { buffer_size: usize },
    WriteFile(WriteFlags),
    WriteSocket(WriteSocketConfig),
    WriteStderr,
    WriteStdout,
    ConcatStrings { joiner: Option<String> },
    DecodeCsv,
    EncodeCsv,
    SplitString { delimiter: Option<String> },
}

/// The delay used: the one given, else one second.
pub open spec fn delay_or_default(d: Option<DelayType>) -> DelayType {
    match d {
        Some(x) => x,
        None => DelayType::Fixed(NANOS_PER_SEC),
    }
}

/// The encoding used: the one given, else text lines.
pub open spec fn encoding_or_default(e: Option<Encoding>) -> Encoding {
    match e {
        Some(x) => x,
        None => Encoding::TextWithNewlineSuffix,
    }
}

/// The digest algorithm used: the one given, else the default one.
pub open spec fn algorithm_or_default(a: Option<HashAlgorithm>) -> HashAlgorithm {
    match a {
        Some(x) => x,
        None => HashAlgorithm::Blake3,
    }
}

/// The flags used: the ones given, else creating and appending.
pub open spec fn flags_or_default(f: Option<WriteFlags>) -> WriteFlags {
    match f {
        Some(x) => x,
        None => WriteFlags { create: true, append: true },
    }
}

/// The abstract value of an optional string.
pub open spec fn opt_view(s: Option<String>) -> Option<Seq<char>> {
    match s {
        Some(x) => Some(x@),
        None => None,
    }
}

fn clone_opt(s: &Option<String>) -> (r: Option<String>)
    ensures
        opt_view(r) == opt_view(*s),
{
    match s {
        Some(x) => Some(x.clone()),
        None => None,
    }
}

impl BlockTag {
    /// The block this tag names, with default parameters: an empty constant,
    /// no seed, and the default delay, algorithm, encoding, buffer size and
    /// flags.
    pub fn instantiate(&self) -> (b: BlockInstance)
        ensures
            match *self {
                BlockTag::Buffer => b == BlockInstance::Buffer,
                BlockTag::Const => b matches BlockInstance::Const { value } && value@.len() == 0,
                BlockTag::Count => b == BlockInstance::Count,
                BlockTag::Delay => b == BlockInstance::Delay(DelayType::Fixed(NANOS_PER_SEC)),
                BlockTag::Drop => b == BlockInstance::Drop,
                BlockTag::Random => b == BlockInstance::Random { seed: None },
                BlockTag::Hash => b == BlockInstance::Hash(HashAlgorithm::Blake3),
                BlockTag::Decode => b == BlockInstance::Decode(Encoding::TextWithNewlineSuffix),
                BlockTag::DecodeHex => b == BlockInstance::DecodeHex,
                BlockTag::Encode => b == BlockInstance::Encode(Encoding::TextWithNewlineSuffix),
                BlockTag::EncodeHex => b == BlockInstance::EncodeHex,
                BlockTag::EncodeJson => b == BlockInstance::EncodeJson,
                BlockTag::ReadDir => b == BlockInstance::ReadDir,
                BlockTag::ReadEnv => b == BlockInstance::ReadEnv,
                BlockTag::ReadFile => b == BlockInstance::ReadFile,
                BlockTag::ReadStdin => b == BlockInstance::ReadStdin {
                    buffer_size: DEFAULT_STDIN_BUFFER_SIZE,
                },
                BlockTag::WriteFile => b == BlockInstance::WriteFile(
                    WriteFlags { create: true, append: true },
                ),
                BlockTag::WriteStderr => b == BlockInstance::WriteStderr,
                BlockTag::WriteStdout => b == BlockInstance::WriteStdout,
            },
    {
        match self {
            BlockTag::Buffer => BlockInstance::Buffer,
            BlockTag::Const => BlockInstance::Const { value: String::new() },
            BlockTag::Count => BlockInstance::Count,
            BlockTag::Delay => BlockInstance::Delay(DelayType::default()),
            BlockTag::Drop => BlockInstance::Drop,
            BlockTag::Random => BlockInstance::Random { seed: None },
            BlockTag::Hash => BlockInstance::Hash(HashAlgorithm::default()),
            BlockTag::Decode => BlockInstance::Decode(Encoding::default()),
            BlockTag::DecodeHex => BlockInstance::DecodeHex,
            BlockTag::Encode => BlockInstance::Encode(Encoding::default()),
            BlockTag::EncodeHex => BlockInstance::EncodeHex,
            BlockTag::EncodeJson => BlockInstance::EncodeJson,
            BlockTag::ReadDir => BlockInstance::ReadDir,
            BlockTag::ReadEnv => BlockInstance::ReadEnv,
            BlockTag::ReadFile => BlockInstance::ReadFile,
            BlockTag::ReadStdin => BlockInstance::ReadStdin { buffer_size: DEFAULT_STDIN_BUFFER_SIZE },
            BlockTag::WriteFile => BlockInstance::WriteFile(WriteFlags::default()),
            BlockTag::WriteStderr => BlockInstance::WriteStderr,
            BlockTag::WriteStdout => BlockInstance::WriteStdout,
        }
    }
}

impl CoreBlockConfig {
    /// `b` is this configuration's block, with its parameters.
    pub open spec fn gives_instance(&self, b: BlockInstance) -> bool {
        match *self {
            CoreBlockConfig::Buffer { .. } => b == BlockInstance::Buffer,
            CoreBlockConfig::Const { value, .. } => b matches BlockInstance::Const { value: v }
                && v@ == value@,
            CoreBlockConfig::Count { .. } => b == BlockInstance::Count,
            CoreBlockConfig::Delay { delay, .. } => b == BlockInstance::Delay(
                delay_or_default(delay),
            ),
            CoreBlockConfig::Drop { .. } => b == BlockInstance::Drop,
            CoreBlockConfig::Random { seed, .. } => b == BlockInstance::Random { seed },
        }
    }

    /// The configured block, with its parameters.
    pub fn instantiate(&self) -> (b: BlockInstance)
        ensures
            self.gives_instance(b),
    {
        match self {
            CoreBlockConfig::Buffer { .. } => BlockInstance::Buffer,
            CoreBlockConfig::Const { value, .. } => BlockInstance::Const { value: value.clone() },
            CoreBlockConfig::Count { .. } => BlockInstance::Count,
            CoreBlockConfig::Delay { delay, .. } => BlockInstance::Delay(
                match delay {
                    Some(d) => *d,
                    None => DelayType::default(),
                },
            ),
            CoreBlockConfig::Drop { .. } => BlockInstance::Drop,
            CoreBlockConfig::Random { seed, .. } => BlockInstance::Random { seed: *seed },
        }
    }
}

impl FlowBlockConfig {
    /// The configured block.
    pub fn instantiate(&self) -> (b: BlockInstance)
        ensures
            b == BlockInstance::Gate,
    {
        match self {
            FlowBlockConfig::Gate { .. } => BlockInstance::Gate,
        }
    }
}

impl HashBlocksConfig {
    /// `b` is this configuration's block, with its parameters.
    pub open spec fn gives_instance(&self, b: BlockInstance) -> bool {
        match *self {
            HashBlocksConfig::Hash { algorithm, .. } => b == BlockInstance::Hash(
                algorithm_or_default(algorithm),
            ),
        }
    }

    /// The configured block, with its algorithm.
    pub fn instantiate(&self) -> (b: BlockInstance)
        ensures
            self.gives_instance(b),
    {
        match self {
            HashBlocksConfig::Hash { algorithm, .. } => BlockInstance::Hash(
                match algorithm {
                    Some(a) => *a,
                    None => HashAlgorithm::default(),
                },
            ),
        }
    }
}

impl IoBlockConfig {
    /// `b` is this configuration's block, with its parameters.
    pub open spec fn gives_instance(&self, b: BlockInstance) -> bool {
        match *self {
            IoBlockConfig::Decode { encoding, .. } => b == BlockInstance::Decode(
                encoding_or_default(encoding),
            ),
            IoBlockConfig::DecodeJson { .. } => b == BlockInstance::DecodeJson,
            IoBlockConfig::Encode { encoding, .. } => b == BlockInstance::Encode(
                encoding_or_default(encoding),
            ),
            IoBlockConfig::EncodeHex { .. } => b == BlockInstance::EncodeHex,
            IoBlockConfig::EncodeJson { .. } => b == BlockInstance::EncodeJson,
        }
    }

    /// The configured block, with its encoding.
    pub fn instantiate(&self) -> (b: BlockInstance)
        ensures
            self.gives_instance(b),
    {
        match self {
            IoBlockConfig::Decode { encoding, .. } => BlockInstance::Decode(
                match encoding {
                    Some(e) => *e,
                    None => Encoding::default(),
                },
            ),
            IoBlockConfig::DecodeJson { .. } => BlockInstance::DecodeJson,
            IoBlockConfig::Encode { encoding, .. } => BlockInstance::Encode(
                match encoding {
                    Some(e) => *e,
                    None => Encoding::default(),
                },
            ),
            IoBlockConfig::EncodeHex { .. } => BlockInstance::EncodeHex,
            IoBlockConfig::EncodeJson { .. } => BlockInstance::EncodeJson,
        }
    }
}

impl MathBlockConfig {
    /// `b` is this configuration's block, with its parameters.
    pub open spec fn gives_instance(&self, b: BlockInstance) -> bool {
        match *self {
            MathBlockConfig::Add { .. } => b == BlockInstance::Add,
            MathBlockConfig::Div { .. } => b == BlockInstance::Div,
            MathBlockConfig::Mul { .. } => b == BlockInstance::Mul,
            MathBlockConfig::Sub { .. } => b == BlockInstance::Sub,
        }
    }

    /// The configured block.
    pub fn instantiate(&self) -> (b: BlockInstance)
        ensures
            self.gives_instance(b),
    {
        match self {
            MathBlockConfig::Add { .. } => BlockInstance::Add,
            MathBlockConfig::Div { .. } => BlockInstance::Div,
            MathBlockConfig::Mul { .. } => BlockInstance::Mul,
            MathBlockConfig::Sub { .. } => BlockInstance::Sub,
        }
    }
}

impl SysBlockConfig {
    /// `b` is this configuration's block, with its parameters.
    pub open spec fn gives_instance(&self, b: BlockInstance) -> bool {
        match *self {
            SysBlockConfig::ReadDir { .. } => b == BlockInstance::ReadDir,
            SysBlockConfig::ReadEnv { .. } => b == BlockInstance::ReadEnv,
            SysBlockConfig::ReadFile { .. } => b == BlockInstance::ReadFile,
            SysBlockConfig::ReadSocket { config, .. } => b matches BlockInstance::ReadSocket(c)
                && c.connection@ == config.connection@ && c.buffer_size == config.buffer_size,
            SysBlockConfig::ReadStdin { buffer_size, .. } => b == BlockInstance::ReadStdin {
                buffer_size: match buffer_size {
                    Some(n) => n,
                    None => DEFAULT_STDIN_BUFFER_SIZE,
                },
            },
            SysBlockConfig::WriteFile { flags, .. } => b == BlockInstance::WriteFile(
                flags_or_default(flags),
            ),
            SysBlockConfig::WriteSocket { config, .. } => b matches BlockInstance::WriteSocket(c)
                && c.connection@ == config.connection@ && c.buffer_size == config.buffer_size,
            SysBlockConfig::WriteStderr { .. } => b == BlockInstance::WriteStderr,
            SysBlockConfig::WriteStdout { .. } => b == BlockInstance::WriteStdout,
        }
    }

    /// The configured block, with its parameters.
    pub fn instantiate(&self) -> (b: BlockInstance)
        ensures
            self.gives_instance(b),
    {
        match self {
            SysBlockConfig::ReadDir { .. } => BlockInstance::ReadDir,
            SysBlockConfig::ReadEnv { .. } => BlockInstance::ReadEnv,
            SysBlockConfig::ReadFile { .. } => BlockInstance::ReadFile,
            SysBlockConfig::ReadSocket { config, .. } => BlockInstance::ReadSocket(
                ReadSocketConfig {
                    connection: config.connection.clone(),
                    buffer_size: config.buffer_size,
                },
            ),
            SysBlockConfig::ReadStdin { buffer_size, .. } => BlockInstance::ReadStdin {
                buffer_size: match buffer_size {
                    Some(n) => *n,
                    None => DEFAULT_STDIN_BUFFER_SIZE,
                },
            },
            SysBlockConfig::WriteFile { flags, .. } => BlockInstance::WriteFile(
                match flags {
                    Some(f) => *f,
                    None => WriteFlags::default(),
                },
            ),
            SysBlockConfig::WriteSocket { config, .. } => BlockInstance::WriteSocket(
                WriteSocketConfig {
                    connection: config.connection.clone(),
                    buffer_size: config.buffer_size,
                },
            ),
            SysBlockConfig::WriteStderr { .. } => BlockInstance::WriteStderr,
            SysBlockConfig::WriteStdout { .. } => BlockInstance::WriteStdout,
        }
    }
}

impl TextBlockConfig {
    /// `b` is this configuration's block, with its parameters.
    pub open spec fn gives_instance(&self, b: BlockInstance) -> bool {
        match *self {
            TextBlockConfig::ConcatStrings { delimiter, .. } => b matches BlockInstance::ConcatStrings {
                joiner,
            } && opt_view(joiner) == opt_view(delimiter),
            TextBlockConfig::DecodeCsv { .. } => b == BlockInstance::DecodeCsv,
            TextBlockConfig::EncodeCsv { .. } => b == BlockInstance::EncodeCsv,
            TextBlockConfig::SplitString { delimiter, .. } => b matches BlockInstance::SplitString {
                delimiter: d,
            } && opt_view(d) == opt_view(delimiter),
        }
    }

    /// The configured block, with its joiner or delimiter.
    pub fn instantiate(&self) -> (b: BlockInstance)
        ensures
            self.gives_instance(b),
    {
        match self {
            TextBlockConfig::ConcatStrings { delimiter, .. } => BlockInstance::ConcatStrings {
                joiner: clone_opt(delimiter),
            },
            TextBlockConfig::DecodeCsv { .. } => BlockInstance::DecodeCsv,
            TextBlockConfig::EncodeCsv { .. } => BlockInstance::EncodeCsv,
            TextBlockConfig::SplitString { delimiter, .. } => BlockInstance::SplitString {
                delimiter: clone_opt(delimiter),
            },
        }
    }
}

impl BlockConfig {
    /// The configured block, by its category's configuration.
    pub fn instantiate(&self) -> (b: BlockInstance)
        ensures
            match *self {
                BlockConfig::Core(c) => c.gives_instance(b),
                BlockConfig::Flow(_) => b == BlockInstance::Gate,
                BlockConfig::Hash(c) => c.gives_instance(b),
                BlockConfig::Io(c) => c.gives_instance(b),
                BlockConfig::Math(c) => c.gives_instance(b),
                BlockConfig::Sys(c) => c.gives_instance(b),
                BlockConfig::Text(c) => c.gives_instance(b),
            },
    {
        match self {
            BlockConfig::Core(c) => c.instantiate(),
            BlockConfig::Flow(c) => c.instantiate(),
            BlockConfig::Hash(c) => c.instantiate(),
            BlockConfig::Io(c) => c.instantiate(),
            BlockConfig::Math(c) => c.instantiate(),
            BlockConfig::Sys(c) => c.instantiate(),
            BlockConfig::Text(c) => c.instantiate(),
        }
    }
}

} // verus!
