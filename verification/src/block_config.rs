use crate::sys::{ReadSocketConfig, WriteFlags, WriteSocketConfig};
use crate::types::{ByteSize, DelayType, Encoding, HashAlgorithm};
use crate::strings::str_eq;
use vstd::prelude::*;

verus! {

/// The name of a block's input port.
pub type InputPortName = String;

/// The name of a block's output port.
pub type OutputPortName = String;

/// An output port of a block, by label, with the port it is wired to, if any.
pub type Connection = (&'static str, Option<OutputPortName>);

/// The abstract value of an optional port name.
pub open spec fn port_view(port: Option<String>) -> Option<Seq<char>> {
    match port {
        Some(p) => Some(p@),
        None => None,
    }
}

/// The abstract value of a connection: its label and the port it is wired to.
pub open spec fn connection_view(c: Connection) -> (Seq<char>, Option<Seq<char>>) {
    (c.0@, port_view(c.1))
}

/// The abstract value of a list of connections.
pub open spec fn connections_view(v: Seq<Connection>) -> Seq<(Seq<char>, Option<Seq<char>>)> {
    v.map_values(|c: Connection| connection_view(c))
}

fn wired(label: &'static str, port: &String) -> (c: Connection)
    ensures
        connection_view(c) == (label@, Some(port@)),
{
    (label, Some(port.clone()))
}

fn maybe_wired(label: &'static str, port: &Option<String>) -> (c: Connection)
    ensures
        connection_view(c) == (label@, port_view(*port)),
{
    match port {
        Some(p) => (label, Some(p.clone())),
        None => (label, None),
    }
}

/// The configuration of a core block.
#[derive(Clone, Debug)]
pub enum CoreBlockConfig {
    Buffer {
        input: String,
    },
    Const {
        output: String,
        value: String,
    },
    Count {
        input: String,
        output: Option<String>,
        count: String,
    },
    Delay {
        input: String,
        output: String,
        delay: Option<DelayType>,
    },
    Drop {
        input: String,
    },
    Random {
        output: String,
        seed: Option<u64>,
    },
}

impl CoreBlockConfig {
    /// The name of the configured block.
    pub open spec fn spec_name(&self) -> Seq<char> {
        match self {
            CoreBlockConfig::Buffer { .. } => "Buffer"@,
            CoreBlockConfig::Const { .. } => "Const"@,
            CoreBlockConfig::Count { .. } => "Count"@,
            CoreBlockConfig::Delay { .. } => "Delay"@,
            CoreBlockConfig::Drop { .. } => "Drop"@,
            CoreBlockConfig::Random { .. } => "Random"@,
        }
    }

    /// The output ports of the configured block, with what they are wired to.
    pub open spec fn spec_output_connections(&self) -> Seq<(Seq<char>, Option<Seq<char>>)> {
        match self {
            CoreBlockConfig::Buffer { .. } => seq![],
            CoreBlockConfig::Const { output, .. } => seq![("output"@, Some(output@))],
            CoreBlockConfig::Count { output, count, .. } => seq![("output"@, port_view(*output)), ("count"@, Some(count@))],
            CoreBlockConfig::Delay { output, .. } => seq![("output"@, Some(output@))],
            CoreBlockConfig::Drop { .. } => seq![],
            CoreBlockConfig::Random { output, .. } => seq![("output"@, Some(output@))],
        }
    }

    /// The name of the configured block.
    pub fn name(&self) -> (n: &'static str)
        ensures
            n@ == self.spec_name(),
    {
        match self {
            CoreBlockConfig::Buffer { .. } => "Buffer",
            CoreBlockConfig::Const { .. } => "Const",
            CoreBlockConfig::Count { .. } => "Count",
            CoreBlockConfig::Delay { .. } => "Delay",
            CoreBlockConfig::Drop { .. } => "Drop",
            CoreBlockConfig::Random { .. } => "Random",
        }
    }

    /// The output ports of the configured block, with what they are wired to.
    pub fn output_connections(&self) -> (v: Vec<Connection>)
        ensures
            connections_view(v@) == self.spec_output_connections(),
    {
        match self {
            CoreBlockConfig::Buffer { .. } => {
                let v: Vec<Connection> = Vec::new();
                assert(connections_view(v@) =~= seq![]);
                v
            },
            CoreBlockConfig::Const { output, .. } => {
                let mut v: Vec<Connection> = Vec::new();
                v.push(wired("output", output));
                assert(connections_view(v@) =~= self.spec_output_connections());
                v
            },
            CoreBlockConfig::Count { output, count, .. } => {
                let mut v: Vec<Connection> = Vec::new();
                v.push(maybe_wired("output", output));
                v.push(wired("count", count));
                assert(connections_view(v@) =~= self.spec_output_connections());
                v
            },
            CoreBlockConfig::Delay { output, .. } => {
                let mut v: Vec<Connection> = Vec::new();
                v.push(wired("output", output));
                assert(connections_view(v@) =~= self.spec_output_connections());
                v
            },
            CoreBlockConfig::Drop { .. } => {
                let v: Vec<Connection> = Vec::new();
                assert(connections_view(v@) =~= seq![]);
                v
            },
            CoreBlockConfig::Random { output, .. } => {
                let mut v: Vec<Connection> = Vec::new();
                v.push(wired("output", output));
                assert(connections_view(v@) =~= self.spec_output_connections());
                v
            },
        }
    }
}

/// The configuration of a flow-control block.
#[derive(Clone, Debug)]
pub enum FlowBlockConfig {
    Gate {
        input: String,
        trigger: String,
        output: String,
    },
}

impl FlowBlockConfig {
    /// The name of the configured block.
    pub open spec fn spec_name(&self) -> Seq<char> {
        match self {
            FlowBlockConfig::Gate { .. } => "Gate"@,
        }
    }

    /// The output ports of the configured block, with what they are wired to.
    pub open spec fn spec_output_connections(&self) -> Seq<(Seq<char>, Option<Seq<char>>)> {
        match self {
            FlowBlockConfig::Gate { output, .. } => seq![("output"@, Some(output@))],
        }
    }

    /// The name of the configured block.
    pub fn name(&self) -> (n: &'static str)
        ensures
            n@ == self.spec_name(),
    {
        match self {
            FlowBlockConfig::Gate { .. } => "Gate",
        }
    }

    /// The output ports of the configured block, with what they are wired to.
    pub fn output_connections(&self) -> (v: Vec<Connection>)
        ensures
            connections_view(v@) == self.spec_output_connections(),
    {
        match self {
            FlowBlockConfig::Gate { output, .. } => {
                let mut v: Vec<Connection> = Vec::new();
                v.push(wired("output", output));
                assert(connections_view(v@) =~= self.spec_output_connections());
                v
            },
        }
    }
}

/// The configuration of a hashing block.
#[derive(Clone, Debug)]
pub enum HashBlocksConfig {
    Hash {
        input: String,
        output: Option<String>,
        hash: String,
        algorithm: Option<HashAlgorithm>,
    },
}

impl HashBlocksConfig {
    /// The name of the configured block.
    pub open spec fn spec_name(&self) -> Seq<char> {
        match self {
            HashBlocksConfig::Hash { .. } => "Hash"@,
        }
    }

    /// The output ports of the configured block, with what they are wired to.
    pub open spec fn spec_output_connections(&self) -> Seq<(Seq<char>, Option<Seq<char>>)> {
        match self {
            HashBlocksConfig::Hash { output, hash, .. } => seq![("output"@, port_view(*output)), ("hash"@, Some(hash@))],
        }
    }

    /// The name of the configured block.
    pub fn name(&self) -> (n: &'static str)
        ensures
            n@ == self.spec_name(),
    {
        match self {
            HashBlocksConfig::Hash { .. } => "Hash",
        }
    }

    /// The output ports of the configured block, with what they are wired to.
    pub fn output_connections(&self) -> (v: Vec<Connection>)
        ensures
            connections_view(v@) == self.spec_output_connections(),
    {
        match self {
            HashBlocksConfig::Hash { output, hash, .. } => {
                let mut v: Vec<Connection> = Vec::new();
                v.push(maybe_wired("output", output));
                v.push(wired("hash", hash));
                assert(connections_view(v@) =~= self.spec_output_connections());
                v
            },
        }
    }
}

/// The configuration of an encoding or decoding block.
#[derive(Clone, Debug)]
pub enum IoBlockConfig {
    Decode {
        input: String,
        output: String,
        encoding: Option<Encoding>,
    },
    DecodeJson {
        input: String,
        output: String,
    },
    Encode {
        input: String,
        output: String,
        encoding: Option<Encoding>,
    },
    EncodeHex {
        input: String,
        output: String,
    },
    EncodeJson {
        input: String,
        output: String,
    },
}

impl IoBlockConfig {
    /// The name of the configured block.
    pub open spec fn spec_name(&self) -> Seq<char> {
        match self {
            IoBlockConfig::Decode { .. } => "Decode"@,
            IoBlockConfig::DecodeJson { .. } => "DecodeJSON"@,
            IoBlockConfig::Encode { .. } => "Encode"@,
            IoBlockConfig::EncodeHex { .. } => "EncodeHex"@,
            IoBlockConfig::EncodeJson { .. } => "EncodeJSON"@,
        }
    }

    /// The output ports of the configured block, with what they are wired to.
    pub open spec fn spec_output_connections(&self) -> Seq<(Seq<char>, Option<Seq<char>>)> {
        match self {
            IoBlockConfig::Decode { output, .. } => seq![("output"@, Some(output@))],
            IoBlockConfig::DecodeJson { output, .. } => seq![("output"@, Some(output@))],
            IoBlockConfig::Encode { output, .. } => seq![("output"@, Some(output@))],
            IoBlockConfig::EncodeHex { output, .. } => seq![("output"@, Some(output@))],
            IoBlockConfig::EncodeJson { output, .. } => seq![("output"@, Some(output@))],
        }
    }

    /// The name of the configured block.
    pub fn name(&self) -> (n: &'static str)
        ensures
            n@ == self.spec_name(),
    {
        match self {
            IoBlockConfig::Decode { .. } => "Decode",
            IoBlockConfig::DecodeJson { .. } => "DecodeJSON",
            IoBlockConfig::Encode { .. } => "Encode",
            IoBlockConfig::EncodeHex { .. } => "EncodeHex",
            IoBlockConfig::EncodeJson { .. } => "EncodeJSON",
        }
    }

    /// The output ports of the configured block, with what they are wired to.
    pub fn output_connections(&self) -> (v: Vec<Connection>)
        ensures
            connections_view(v@) == self.spec_output_connections(),
    {
        match self {
            IoBlockConfig::Decode { output, .. } => {
                let mut v: Vec<Connection> = Vec::new();
                v.push(wired("output", output));
                assert(connections_view(v@) =~= self.spec_output_connections());
                v
            },
            IoBlockConfig::DecodeJson { output, .. } => {
                let mut v: Vec<Connection> = Vec::new();
                v.push(wired("output", output));
                assert(connections_view(v@) =~= self.spec_output_connections());
                v
            },
            IoBlockConfig::Encode { output, .. } => {
                let mut v: Vec<Connection> = Vec::new();
                v.push(wired("output", output));
                assert(connections_view(v@) =~= self.spec_output_connections());
                v
            },
            IoBlockConfig::EncodeHex { output, .. } => {
                let mut v: Vec<Connection> = Vec::new();
                v.push(wired("output", output));
                assert(connections_view(v@) =~= self.spec_output_connections());
                v
            },
            IoBlockConfig::EncodeJson { output, .. } => {
                let mut v: Vec<Connection> = Vec::new();
                v.push(wired("output", output));
                assert(connections_view(v@) =~= self.spec_output_connections());
                v
            },
        }
    }
}

/// The configuration of an arithmetic block.
#[derive(Clone, Debug)]
pub enum MathBlockConfig {
    Add {
        input: String,
        output: String,
    },
    Div {
        input: String,
        output: String,
    },
    Mul {
        input: String,
        output: String,
    },
    Sub {
        input: String,
        output: String,
    },
}

impl MathBlockConfig {
    /// The name of the configured block.
    pub open spec fn spec_name(&self) -> Seq<char> {
        match self {
            MathBlockConfig::Add { .. } => "Add"@,
            MathBlockConfig::Div { .. } => "Div"@,
            MathBlockConfig::Mul { .. } => "Mul"@,
            MathBlockConfig::Sub { .. } => "Sub"@,
        }
    }

    /// The output ports of the configured block, with what they are wired to.
    pub open spec fn spec_output_connections(&self) -> Seq<(Seq<char>, Option<Seq<char>>)> {
        match self {
            MathBlockConfig::Add { output, .. } => seq![("output"@, Some(output@))],
            MathBlockConfig::Div { output, .. } => seq![("output"@, Some(output@))],
            MathBlockConfig::Mul { output, .. } => seq![("output"@, Some(output@))],
            MathBlockConfig::Sub { output, .. } => seq![("output"@, Some(output@))],
        }
    }

    /// The name of the configured block.
    pub fn name(&self) -> (n: &'static str)
        ensures
            n@ == self.spec_name(),
    {
        match self {
            MathBlockConfig::Add { .. } => "Add",
            MathBlockConfig::Div { .. } => "Div",
            MathBlockConfig::Mul { .. } => "Mul",
            MathBlockConfig::Sub { .. } => "Sub",
        }
    }

    /// The output ports of the configured block, with what they are wired to.
    pub fn output_connections(&self) -> (v: Vec<Connection>)
        ensures
            connections_view(v@) == self.spec_output_connections(),
    {
        match self {
            MathBlockConfig::Add { output, .. } => {
                let mut v: Vec<Connection> = Vec::new();
                v.push(wired("output", output));
                assert(connections_view(v@) =~= self.spec_output_connections());
                v
            },
            MathBlockConfig::Div { output, .. } => {
                let mut v: Vec<Connection> = Vec::new();
                v.push(wired("output", output));
                assert(connections_view(v@) =~= self.spec_output_connections());
                v
            },
            MathBlockConfig::Mul { output, .. } => {
                let mut v: Vec<Connection> = Vec::new();
                v.push(wired("output", output));
                assert(connections_view(v@) =~= self.spec_output_connections());
                v
            },
            MathBlockConfig::Sub { output, .. } => {
                let mut v: Vec<Connection> = Vec::new();
                v.push(wired("output", output));
                assert(connections_view(v@) =~= self.spec_output_connections());
                v
            },
        }
    }
}

/// The configuration of a system (I/O) block.
#[derive(Clone, Debug)]
pub enum SysBlockConfig {
    ReadDir {
        path: String,
        output: String,
    },
    ReadEnv {
        name: String,
        output: String,
    },
    ReadFile {
        path: String,
        output: String,
    },
    ReadSocket {
        output: String,
        config: ReadSocketConfig,
    },
    ReadStdin {
        output: String,
        buffer_size: Option<ByteSize>,
    },
    WriteFile {
        path: String,
        input: String,
        flags: Option<WriteFlags>,
    },
    WriteSocket {
        input: String,
        config: WriteSocketConfig,
    },
    WriteStderr {
        input: String,
    },
    WriteStdout {
        input: String,
    },
}

impl SysBlockConfig {
    /// The name of the configured block.
    pub open spec fn spec_name(&self) -> Seq<char> {
        match self {
            SysBlockConfig::ReadDir { .. } => "ReadDir"@,
            SysBlockConfig::ReadEnv { .. } => "ReadEnv"@,
            SysBlockConfig::ReadFile { .. } => "ReadFile"@,
            SysBlockConfig::ReadSocket { .. } => "ReadSocket"@,
            SysBlockConfig::ReadStdin { .. } => "ReadStdin"@,
            SysBlockConfig::WriteFile { .. } => "WriteFile"@,
            SysBlockConfig::WriteSocket { .. } => "WriteSocket"@,
            SysBlockConfig::WriteStderr { .. } => "WriteStderr"@,
            SysBlockConfig::WriteStdout { .. } => "WriteStdout"@,
        }
    }

    /// The output ports of the configured block, with what they are wired to.
    pub open spec fn spec_output_connections(&self) -> Seq<(Seq<char>, Option<Seq<char>>)> {
        match self {
            SysBlockConfig::ReadDir { output, .. } => seq![("output"@, Some(output@))],
            SysBlockConfig::ReadEnv { output, .. } => seq![("output"@, Some(output@))],
            SysBlockConfig::ReadFile { output, .. } => seq![("output"@, Some(output@))],
            SysBlockConfig::ReadSocket { output, .. } => seq![("output"@, Some(output@))],
            SysBlockConfig::ReadStdin { output, .. } => seq![("output"@, Some(output@))],
            SysBlockConfig::WriteFile { .. } => seq![],
            SysBlockConfig::WriteSocket { .. } => seq![],
            SysBlockConfig::WriteStderr { .. } => seq![],
            SysBlockConfig::WriteStdout { .. } => seq![],
        }
    }

    /// The name of the configured block.
    pub fn name(&self) -> (n: &'static str)
        ensures
            n@ == self.spec_name(),
    {
        match self {
            SysBlockConfig::ReadDir { .. } => "ReadDir",
            SysBlockConfig::ReadEnv { .. } => "ReadEnv",
            SysBlockConfig::ReadFile { .. } => "ReadFile",
            SysBlockConfig::ReadSocket { .. } => "ReadSocket",
            SysBlockConfig::ReadStdin { .. } => "ReadStdin",
            SysBlockConfig::WriteFile { .. } => "WriteFile",
            SysBlockConfig::WriteSocket { .. } => "WriteSocket",
            SysBlockConfig::WriteStderr { .. } => "WriteStderr",
            SysBlockConfig::WriteStdout { .. } => "WriteStdout",
        }
    }

    /// The output ports of the configured block, with what they are wired to.
    pub fn output_connections(&self) -> (v: Vec<Connection>)
        ensures
            connections_view(v@) == self.spec_output_connections(),
    {
        match self {
            SysBlockConfig::ReadDir { output, .. } => {
                let mut v: Vec<Connection> = Vec::new();
                v.push(wired("output", output));
                assert(connections_view(v@) =~= self.spec_output_connections());
                v
            },
            SysBlockConfig::ReadEnv { output, .. } => {
                let mut v: Vec<Connection> = Vec::new();
                v.push(wired("output", output));
                assert(connections_view(v@) =~= self.spec_output_connections());
                v
            },
            SysBlockConfig::ReadFile { output, .. } => {
                let mut v: Vec<Connection> = Vec::new();
                v.push(wired("output", output));
                assert(connections_view(v@) =~= self.spec_output_connections());
                v
            },
            SysBlockConfig::ReadSocket { output, .. } => {
                let mut v: Vec<Connection> = Vec::new();
                v.push(wired("output", output));
                assert(connections_view(v@) =~= self.spec_output_connections());
                v
            },
            SysBlockConfig::ReadStdin { output, .. } => {
                let mut v: Vec<Connection> = Vec::new();
                v.push(wired("output", output));
                assert(connections_view(v@) =~= self.spec_output_connections());
                v
            },
            SysBlockConfig::WriteFile { .. } => {
                let v: Vec<Connection> = Vec::new();
                assert(connections_view(v@) =~= seq![]);
                v
            },
            SysBlockConfig::WriteSocket { .. } => {
                let v: Vec<Connection> = Vec::new();
                assert(connections_view(v@) =~= seq![]);
                v
            },
            SysBlockConfig::WriteStderr { .. } => {
                let v: Vec<Connection> = Vec::new();
                assert(connections_view(v@) =~= seq![]);
                v
            },
            SysBlockConfig::WriteStdout { .. } => {
                let v: Vec<Connection> = Vec::new();
                assert(connections_view(v@) =~= seq![]);
                v
            },
        }
    }
}

/// The configuration of a text-processing block.
#[derive(Clone, Debug)]
pub enum TextBlockConfig {
    ConcatStrings {
        input: String,
        output: String,
        delimiter: Option<String>,
    },
    DecodeCsv {
        input: String,
        header: String,
        rows: String,
    },
    EncodeCsv {
        header: String,
        rows: String,
        output: String,
    },
    SplitString {
        input: String,
        output: String,
        delimiter: Option<String>,
    },
}

impl TextBlockConfig {
    /// The name of the configured block.
    pub open spec fn spec_name(&self) -> Seq<char> {
        match self {
            TextBlockConfig::ConcatStrings { .. } => "ConcatStrings"@,
            TextBlockConfig::DecodeCsv { .. } => "DecodeCSV"@,
            TextBlockConfig::EncodeCsv { .. } => "EncodeCSV"@,
            TextBlockConfig::SplitString { .. } => "SplitString"@,
        }
    }

    /// The output ports of the configured block, with what they are wired to.
    pub open spec fn spec_output_connections(&self) -> Seq<(Seq<char>, Option<Seq<char>>)> {
        match self {
            TextBlockConfig::ConcatStrings { output, .. } => seq![("output"@, Some(output@))],
            TextBlockConfig::DecodeCsv { header, rows, .. } => seq![("header"@, Some(header@)), ("rows"@, Some(rows@))],
            TextBlockConfig::EncodeCsv { output, .. } => seq![("output"@, Some(output@))],
            TextBlockConfig::SplitString { output, .. } => seq![("output"@, Some(output@))],
        }
    }

    /// The name of the configured block.
    pub fn name(&self) -> (n: &'static str)
        ensures
            n@ == self.spec_name(),
    {
        match self {
            TextBlockConfig::ConcatStrings { .. } => "ConcatStrings",
            TextBlockConfig::DecodeCsv { .. } => "DecodeCSV",
            TextBlockConfig::EncodeCsv { .. } => "EncodeCSV",
            TextBlockConfig::SplitString { .. } => "SplitString",
        }
    }

    /// The output ports of the configured block, with what they are wired to.
    pub fn output_connections(&self) -> (v: Vec<Connection>)
        ensures
            connections_view(v@) == self.spec_output_connections(),
    {
        match self {
            TextBlockConfig::ConcatStrings { output, .. } => {
                let mut v: Vec<Connection> = Vec::new();
                v.push(wired("output", output));
                assert(connections_view(v@) =~= self.spec_output_connections());
                v
            },
            TextBlockConfig::DecodeCsv { header, rows, .. } => {
                let mut v: Vec<Connection> = Vec::new();
                v.push(wired("header", header));
                v.push(wired("rows", rows));
                assert(connections_view(v@) =~= self.spec_output_connections());
                v
            },
            TextBlockConfig::EncodeCsv { output, .. } => {
                let mut v: Vec<Connection> = Vec::new();
                v.push(wired("output", output));
                assert(connections_view(v@) =~= self.spec_output_connections());
                v
            },
            TextBlockConfig::SplitString { output, .. } => {
                let mut v: Vec<Connection> = Vec::new();
                v.push(wired("output", output));
                assert(connections_view(v@) =~= self.spec_output_connections());
                v
            },
        }
    }
}

/// The configuration of any block, by category.
#[derive(Clone, Debug)]
pub enum BlockConfig {
    Core(CoreBlockConfig),
    Flow(FlowBlockConfig),
    Hash(HashBlocksConfig),
    Io(IoBlockConfig),
    Math(MathBlockConfig),
    Sys(SysBlockConfig),
    Text(TextBlockConfig),
}

impl BlockConfig {
    /// The name of the configured block.
    pub open spec fn spec_name(&self) -> Seq<char> {
        match self {
            BlockConfig::Core(config) => config.spec_name(),
            BlockConfig::Flow(config) => config.spec_name(),
            BlockConfig::Hash(config) => config.spec_name(),
            BlockConfig::Io(config) => config.spec_name(),
            BlockConfig::Math(config) => config.spec_name(),
            BlockConfig::Sys(config) => config.spec_name(),
            BlockConfig::Text(config) => config.spec_name(),
        }
    }

    /// The output ports of the configured block, with what they are wired to.
    pub open spec fn spec_output_connections(&self) -> Seq<(Seq<char>, Option<Seq<char>>)> {
        match self {
            BlockConfig::Core(config) => config.spec_output_connections(),
            BlockConfig::Flow(config) => config.spec_output_connections(),
            BlockConfig::Hash(config) => config.spec_output_connections(),
            BlockConfig::Io(config) => config.spec_output_connections(),
            BlockConfig::Math(config) => config.spec_output_connections(),
            BlockConfig::Sys(config) => config.spec_output_connections(),
            BlockConfig::Text(config) => config.spec_output_connections(),
        }
    }

    /// The name of the configured block.
    pub fn name(&self) -> (n: &'static str)
        ensures
            n@ == self.spec_name(),
    {
        match self {
            BlockConfig::Core(config) => config.name(),
            BlockConfig::Flow(config) => config.name(),
            BlockConfig::Hash(config) => config.name(),
            BlockConfig::Io(config) => config.name(),
            BlockConfig::Math(config) => config.name(),
            BlockConfig::Sys(config) => config.name(),
            BlockConfig::Text(config) => config.name(),
        }
    }

    /// The output ports of the configured block, with what they are wired to.
    pub fn output_connections(&self) -> (v: Vec<Connection>)
        ensures
            connections_view(v@) == self.spec_output_connections(),
    {
        match self {
            BlockConfig::Core(config) => config.output_connections(),
            BlockConfig::Flow(config) => config.output_connections(),
            BlockConfig::Hash(config) => config.output_connections(),
            BlockConfig::Io(config) => config.output_connections(),
            BlockConfig::Math(config) => config.output_connections(),
            BlockConfig::Sys(config) => config.output_connections(),
            BlockConfig::Text(config) => config.output_connections(),
        }
    }
}

/// The category of blocks a configuration belongs to.
#[derive(Clone, Copy, Debug, PartialEq, Eq, Structural)]
pub enum BlockCategory {
    Core,
    Flow,
    Hash,
    Io,
    Math,
    Sys,
    Text,
}

impl BlockConfig {
    /// The category of the configured block.
    pub open spec fn spec_category(&self) -> BlockCategory {
        match self {
            BlockConfig::Core(_) => BlockCategory::Core,
            BlockConfig::Flow(_) => BlockCategory::Flow,
            BlockConfig::Hash(_) => BlockCategory::Hash,
            BlockConfig::Io(_) => BlockCategory::Io,
            BlockConfig::Math(_) => BlockCategory::Math,
            BlockConfig::Sys(_) => BlockCategory::Sys,
            BlockConfig::Text(_) => BlockCategory::Text,
        }
    }

    /// The category of the configured block.
    pub fn category(&self) -> (c: BlockCategory)
        ensures
            c == self.spec_category(),
    {
        match self {
            BlockConfig::Core(_) => BlockCategory::Core,
            BlockConfig::Flow(_) => BlockCategory::Flow,
            BlockConfig::Hash(_) => BlockCategory::Hash,
            BlockConfig::Io(_) => BlockCategory::Io,
            BlockConfig::Math(_) => BlockCategory::Math,
            BlockConfig::Sys(_) => BlockCategory::Sys,
            BlockConfig::Text(_) => BlockCategory::Text,
        }
    }
}

/// The category a tagged configuration document is read as, by its tag;
/// `None` for tags that cannot be read.
pub open spec fn spec_category_of_tag(tag: Seq<char>) -> Option<BlockCategory> {
    if tag == "Buffer"@ || tag == "Const"@ || tag == "Count"@ || tag == "Delay"@ || tag == "Drop"@ || tag == "Random"@ {
        Some(BlockCategory::Core)
    } else if tag == "Hash"@ {
        Some(BlockCategory::Hash)
    } else if tag == "Decode"@ || tag == "Encode"@ || tag == "EncodeHex"@ {
        Some(BlockCategory::Io)
    } else if tag == "ReadDir"@ || tag == "ReadEnv"@ || tag == "ReadFile"@ || tag == "ReadStdin"@ || tag == "WriteFile"@ || tag == "WriteStderr"@ || tag == "WriteStdout"@ {
        Some(BlockCategory::Sys)
    } else {
        None
    }
}

/// The category a tagged configuration document is read as, by its tag.
pub fn category_of_tag(tag: &str) -> (c: Option<BlockCategory>)
    ensures
        c == spec_category_of_tag(tag@),
{
    if str_eq(tag, "Buffer") || str_eq(tag, "Const") || str_eq(tag, "Count") || str_eq(tag, "Delay") || str_eq(tag, "Drop") || str_eq(tag, "Random") {
        return Some(BlockCategory::Core);
    }
    if str_eq(tag, "Hash") {
        return Some(BlockCategory::Hash);
    }
    if str_eq(tag, "Decode") || str_eq(tag, "Encode") || str_eq(tag, "EncodeHex") {
        return Some(BlockCategory::Io);
    }
    if str_eq(tag, "ReadDir") || str_eq(tag, "ReadEnv") || str_eq(tag, "ReadFile") || str_eq(tag, "ReadStdin") || str_eq(tag, "WriteFile") || str_eq(tag, "WriteStderr") || str_eq(tag, "WriteStdout") {
        return Some(BlockCategory::Sys);
    }
    None
}

/// A configuration document tagged with a configuration's own name is read
/// back in that configuration's category, whenever its tag can be read at all.
pub proof fn lemma_tag_category_matches(config: BlockConfig)
    ensures
        spec_category_of_tag(config.spec_name()) matches Some(c) ==> c == config.spec_category(),
{
    reveal_strlit("Add");
    reveal_strlit("Buffer");
    reveal_strlit("ConcatStrings");
    reveal_strlit("Const");
    reveal_strlit("Count");
    reveal_strlit("Decode");
    reveal_strlit("DecodeCSV");
    reveal_strlit("DecodeJSON");
    reveal_strlit("Delay");
    reveal_strlit("Div");
    reveal_strlit("Drop");
    reveal_strlit("Encode");
    reveal_strlit("EncodeCSV");
    reveal_strlit("EncodeHex");
    reveal_strlit("EncodeJSON");
    reveal_strlit("Gate");
    reveal_strlit("Hash");
    reveal_strlit("Mul");
    reveal_strlit("Random");
    reveal_strlit("ReadDir");
    reveal_strlit("ReadEnv");
    reveal_strlit("ReadFile");
    reveal_strlit("ReadSocket");
    reveal_strlit("ReadStdin");
    reveal_strlit("SplitString");
    reveal_strlit("Sub");
    reveal_strlit("WriteFile");
    reveal_strlit("WriteSocket");
    reveal_strlit("WriteStderr");
    reveal_strlit("WriteStdout");
    match config {
        BlockConfig::Core(c) => {
            match c {
                CoreBlockConfig::Buffer { .. } => {
                    assert("Buffer"@.len() != "Hash"@.len());
                    assert("Buffer"@[0] != "Decode"@[0]);
                    assert("Buffer"@[0] != "Encode"@[0]);
                    assert("Buffer"@.len() != "EncodeHex"@.len());
                    assert("Buffer"@.len() != "ReadDir"@.len());
                    assert("Buffer"@.len() != "ReadEnv"@.len());
                    assert("Buffer"@.len() != "ReadFile"@.len());
                    assert("Buffer"@.len() != "ReadStdin"@.len());
                    assert("Buffer"@.len() != "WriteFile"@.len());
                    assert("Buffer"@.len() != "WriteStderr"@.len());
                    assert("Buffer"@.len() != "WriteStdout"@.len());
                },
                CoreBlockConfig::Const { .. } => {
                    assert("Const"@.len() != "Hash"@.len());
                    assert("Const"@.len() != "Decode"@.len());
                    assert("Const"@.len() != "Encode"@.len());
                    assert("Const"@.len() != "EncodeHex"@.len());
                    assert("Const"@.len() != "ReadDir"@.len());
                    assert("Const"@.len() != "ReadEnv"@.len());
                    assert("Const"@.len() != "ReadFile"@.len());
                    assert("Const"@.len() != "ReadStdin"@.len());
                    assert("Const"@.len() != "WriteFile"@.len());
                    assert("Const"@.len() != "WriteStderr"@.len());
                    assert("Const"@.len() != "WriteStdout"@.len());
                },
                CoreBlockConfig::Count { .. } => {
                    assert("Count"@.len() != "Hash"@.len());
                    assert("Count"@.len() != "Decode"@.len());
                    assert("Count"@.len() != "Encode"@.len());
                    assert("Count"@.len() != "EncodeHex"@.len());
                    assert("Count"@.len() != "ReadDir"@.len());
                    assert("Count"@.len() != "ReadEnv"@.len());
                    assert("Count"@.len() != "ReadFile"@.len());
                    assert("Count"@.len() != "ReadStdin"@.len());
                    assert("Count"@.len() != "WriteFile"@.len());
                    assert("Count"@.len() != "WriteStderr"@.len());
                    assert("Count"@.len() != "WriteStdout"@.len());
                },
                CoreBlockConfig::Delay { .. } => {
                    assert("Delay"@.len() != "Hash"@.len());
                    assert("Delay"@.len() != "Decode"@.len());
                    assert("Delay"@.len() != "Encode"@.len());
                    assert("Delay"@.len() != "EncodeHex"@.len());
                    assert("Delay"@.len() != "ReadDir"@.len());
                    assert("Delay"@.len() != "ReadEnv"@.len());
                    assert("Delay"@.len() != "ReadFile"@.len());
                    assert("Delay"@.len() != "ReadStdin"@.len());
                    assert("Delay"@.len() != "WriteFile"@.len());
                    assert("Delay"@.len() != "WriteStderr"@.len());
                    assert("Delay"@.len() != "WriteStdout"@.len());
                },
                CoreBlockConfig::Drop { .. } => {
                    assert("Drop"@[0] != "Hash"@[0]);
                    assert("Drop"@.len() != "Decode"@.len());
                    assert("Drop"@.len() != "Encode"@.len());
                    assert("Drop"@.len() != "EncodeHex"@.len());
                    assert("Drop"@.len() != "ReadDir"@.len());
                    assert("Drop"@.len() != "ReadEnv"@.len());
                    assert("Drop"@.len() != "ReadFile"@.len());
                    assert("Drop"@.len() != "ReadStdin"@.len());
                    assert("Drop"@.len() != "WriteFile"@.len());
                    assert("Drop"@.len() != "WriteStderr"@.len());
                    assert("Drop"@.len() != "WriteStdout"@.len());
                },
                CoreBlockConfig::Random { .. } => {
                    assert("Random"@.len() != "Hash"@.len());
                    assert("Random"@[0] != "Decode"@[0]);
                    assert("Random"@[0] != "Encode"@[0]);
                    assert("Random"@.len() != "EncodeHex"@.len());
                    assert("Random"@.len() != "ReadDir"@.len());
                    assert("Random"@.len() != "ReadEnv"@.len());
                    assert("Random"@.len() != "ReadFile"@.len());
                    assert("Random"@.len() != "ReadStdin"@.len());
                    assert("Random"@.len() != "WriteFile"@.len());
                    assert("Random"@.len() != "WriteStderr"@.len());
                    assert("Random"@.len() != "WriteStdout"@.len());
                },
            }
        },
        BlockConfig::Flow(c) => {
            match c {
                FlowBlockConfig::Gate { .. } => {
                    assert("Gate"@.len() != "Buffer"@.len());
                    assert("Gate"@.len() != "Const"@.len());
                    assert("Gate"@.len() != "Count"@.len());
                    assert("Gate"@.len() != "Delay"@.len());
                    assert("Gate"@[0] != "Drop"@[0]);
                    assert("Gate"@.len() != "Random"@.len());
                    assert("Gate"@[0] != "Hash"@[0]);
                    assert("Gate"@.len() != "Decode"@.len());
                    assert("Gate"@.len() != "Encode"@.len());
                    assert("Gate"@.len() != "EncodeHex"@.len());
                    assert("Gate"@.len() != "ReadDir"@.len());
                    assert("Gate"@.len() != "ReadEnv"@.len());
                    assert("Gate"@.len() != "ReadFile"@.len());
                    assert("Gate"@.len() != "ReadStdin"@.len());
                    assert("Gate"@.len() != "WriteFile"@.len());
                    assert("Gate"@.len() != "WriteStderr"@.len());
                    assert("Gate"@.len() != "WriteStdout"@.len());
                },
            }
        },
        BlockConfig::Hash(c) => {
            match c {
                HashBlocksConfig::Hash { .. } => {
                    assert("Hash"@.len() != "Buffer"@.len());
                    assert("Hash"@.len() != "Const"@.len());
                    assert("Hash"@.len() != "Count"@.len());
                    assert("Hash"@.len() != "Delay"@.len());
                    assert("Hash"@[0] != "Drop"@[0]);
                    assert("Hash"@.len() != "Random"@.len());
                    assert("Hash"@.len() != "Decode"@.len());
                    assert("Hash"@.len() != "Encode"@.len());
                    assert("Hash"@.len() != "EncodeHex"@.len());
                    assert("Hash"@.len() != "ReadDir"@.len());
                    assert("Hash"@.len() != "ReadEnv"@.len());
                    assert("Hash"@.len() != "ReadFile"@.len());
                    assert("Hash"@.len() != "ReadStdin"@.len());
                    assert("Hash"@.len() != "WriteFile"@.len());
                    assert("Hash"@.len() != "WriteStderr"@.len());
                    assert("Hash"@.len() != "WriteStdout"@.len());
                },
            }
        },
        BlockConfig::Io(c) => {
            match c {
                IoBlockConfig::Decode { .. } => {
                    assert("Decode"@[0] != "Buffer"@[0]);
                    assert("Decode"@.len() != "Const"@.len());
                    assert("Decode"@.len() != "Count"@.len());
                    assert("Decode"@.len() != "Delay"@.len());
                    assert("Decode"@.len() != "Drop"@.len());
                    assert("Decode"@[0] != "Random"@[0]);
                    assert("Decode"@.len() != "Hash"@.len());
                    assert("Decode"@.len() != "ReadDir"@.len());
                    assert("Decode"@.len() != "ReadEnv"@.len());
                    assert("Decode"@.len() != "ReadFile"@.len());
                    assert("Decode"@.len() != "ReadStdin"@.len());
                    assert("Decode"@.len() != "WriteFile"@.len());
                    assert("Decode"@.len() != "WriteStderr"@.len());
                    assert("Decode"@.len() != "WriteStdout"@.len());
                },
                IoBlockConfig::DecodeJson { .. } => {
                    assert("DecodeJSON"@.len() != "Buffer"@.len());
                    assert("DecodeJSON"@.len() != "Const"@.len());
                    assert("DecodeJSON"@.len() != "Count"@.len());
                    assert("DecodeJSON"@.len() != "Delay"@.len());
                    assert("DecodeJSON"@.len() != "Drop"@.len());
                    assert("DecodeJSON"@.len() != "Random"@.len());
                    assert("DecodeJSON"@.len() != "Hash"@.len());
                    assert("DecodeJSON"@.len() != "ReadDir"@.len());
                    assert("DecodeJSON"@.len() != "ReadEnv"@.len());
                    assert("DecodeJSON"@.len() != "ReadFile"@.len());
                    assert("DecodeJSON"@.len() != "ReadStdin"@.len());
                    assert("DecodeJSON"@.len() != "WriteFile"@.len());
                    assert("DecodeJSON"@.len() != "WriteStderr"@.len());
                    assert("DecodeJSON"@.len() != "WriteStdout"@.len());
                },
                IoBlockConfig::Encode { .. } => {
                    assert("Encode"@[0] != "Buffer"@[0]);
                    assert("Encode"@.len() != "Const"@.len());
                    assert("Encode"@.len() != "Count"@.len());
                    assert("Encode"@.len() != "Delay"@.len());
                    assert("Encode"@.len() != "Drop"@.len());
                    assert("Encode"@[0] != "Random"@[0]);
                    assert("Encode"@.len() != "Hash"@.len());
                    assert("Encode"@.len() != "ReadDir"@.len());
                    assert("Encode"@.len() != "ReadEnv"@.len());
                    assert("Encode"@.len() != "ReadFile"@.len());
                    assert("Encode"@.len() != "ReadStdin"@.len());
                    assert("Encode"@.len() != "WriteFile"@.len());
                    assert("Encode"@.len() != "WriteStderr"@.len());
                    assert("Encode"@.len() != "WriteStdout"@.len());
                },
                IoBlockConfig::EncodeHex { .. } => {
                    assert("EncodeHex"@.len() != "Buffer"@.len());
                    assert("EncodeHex"@.len() != "Const"@.len());
                    assert("EncodeHex"@.len() != "Count"@.len());
                    assert("EncodeHex"@.len() != "Delay"@.len());
                    assert("EncodeHex"@.len() != "Drop"@.len());
                    assert("EncodeHex"@.len() != "Random"@.len());
                    assert("EncodeHex"@.len() != "Hash"@.len());
                    assert("EncodeHex"@.len() != "ReadDir"@.len());
                    assert("EncodeHex"@.len() != "ReadEnv"@.len());
                    assert("EncodeHex"@.len() != "ReadFile"@.len());
                    assert("EncodeHex"@[0] != "ReadStdin"@[0]);
                    assert("EncodeHex"@[0] != "WriteFile"@[0]);
                    assert("EncodeHex"@.len() != "WriteStderr"@.len());
                    assert("EncodeHex"@.len() != "WriteStdout"@.len());
                },
                IoBlockConfig::EncodeJson { .. } => {
                    assert("EncodeJSON"@.len() != "Buffer"@.len());
                    assert("EncodeJSON"@.len() != "Const"@.len());
                    assert("EncodeJSON"@.len() != "Count"@.len());
                    assert("EncodeJSON"@.len() != "Delay"@.len());
                    assert("EncodeJSON"@.len() != "Drop"@.len());
                    assert("EncodeJSON"@.len() != "Random"@.len());
                    assert("EncodeJSON"@.len() != "Hash"@.len());
                    assert("EncodeJSON"@.len() != "ReadDir"@.len());
                    assert("EncodeJSON"@.len() != "ReadEnv"@.len());
                    assert("EncodeJSON"@.len() != "ReadFile"@.len());
                    assert("EncodeJSON"@.len() != "ReadStdin"@.len());
                    assert("EncodeJSON"@.len() != "WriteFile"@.len());
                    assert("EncodeJSON"@.len() != "WriteStderr"@.len());
                    assert("EncodeJSON"@.len() != "WriteStdout"@.len());
                },
            }
        },
        BlockConfig::Math(c) => {
            match c {
                MathBlockConfig::Add { .. } => {
                    assert("Add"@.len() != "Buffer"@.len());
                    assert("Add"@.len() != "Const"@.len());
                    assert("Add"@.len() != "Count"@.len());
                    assert("Add"@.len() != "Delay"@.len());
                    assert("Add"@.len() != "Drop"@.len());
                    assert("Add"@.len() != "Random"@.len());
                    assert("Add"@.len() != "Hash"@.len());
                    assert("Add"@.len() != "Decode"@.len());
                    assert("Add"@.len() != "Encode"@.len());
                    assert("Add"@.len() != "EncodeHex"@.len());
                    assert("Add"@.len() != "ReadDir"@.len());
                    assert("Add"@.len() != "ReadEnv"@.len());
                    assert("Add"@.len() != "ReadFile"@.len());
                    assert("Add"@.len() != "ReadStdin"@.len());
                    assert("Add"@.len() != "WriteFile"@.len());
                    assert("Add"@.len() != "WriteStderr"@.len());
                    assert("Add"@.len() != "WriteStdout"@.len());
                },
                MathBlockConfig::Div { .. } => {
                    assert("Div"@.len() != "Buffer"@.len());
                    assert("Div"@.len() != "Const"@.len());
                    assert("Div"@.len() != "Count"@.len());
                    assert("Div"@.len() != "Delay"@.len());
                    assert("Div"@.len() != "Drop"@.len());
                    assert("Div"@.len() != "Random"@.len());
                    assert("Div"@.len() != "Hash"@.len());
                    assert("Div"@.len() != "Decode"@.len());
                    assert("Div"@.len() != "Encode"@.len());
                    assert("Div"@.len() != "EncodeHex"@.len());
                    assert("Div"@.len() != "ReadDir"@.len());
                    assert("Div"@.len() != "ReadEnv"@.len());
                    assert("Div"@.len() != "ReadFile"@.len());
                    assert("Div"@.len() != "ReadStdin"@.len());
                    assert("Div"@.len() != "WriteFile"@.len());
                    assert("Div"@.len() != "WriteStderr"@.len());
                    assert("Div"@.len() != "WriteStdout"@.len());
                },
                MathBlockConfig::Mul { .. } => {
                    assert("Mul"@.len() != "Buffer"@.len());
                    assert("Mul"@.len() != "Const"@.len());
                    assert("Mul"@.len() != "Count"@.len());
                    assert("Mul"@.len() != "Delay"@.len());
                    assert("Mul"@.len() != "Drop"@.len());
                    assert("Mul"@.len() != "Random"@.len());
                    assert("Mul"@.len() != "Hash"@.len());
                    assert("Mul"@.len() != "Decode"@.len());
                    assert("Mul"@.len() != "Encode"@.len());
                    assert("Mul"@.len() != "EncodeHex"@.len());
                    assert("Mul"@.len() != "ReadDir"@.len());
                    assert("Mul"@.len() != "ReadEnv"@.len());
                    assert("Mul"@.len() != "ReadFile"@.len());
                    assert("Mul"@.len() != "ReadStdin"@.len());
                    assert("Mul"@.len() != "WriteFile"@.len());
                    assert("Mul"@.len() != "WriteStderr"@.len());
                    assert("Mul"@.len() != "WriteStdout"@.len());
                },
                MathBlockConfig::Sub { .. } => {
                    assert("Sub"@.len() != "Buffer"@.len());
                    assert("Sub"@.len() != "Const"@.len());
                    assert("Sub"@.len() != "Count"@.len());
                    assert("Sub"@.len() != "Delay"@.len());
                    assert("Sub"@.len() != "Drop"@.len());
                    assert("Sub"@.len() != "Random"@.len());
                    assert("Sub"@.len() != "Hash"@.len());
                    assert("Sub"@.len() != "Decode"@.len());
                    assert("Sub"@.len() != "Encode"@.len());
                    assert("Sub"@.len() != "EncodeHex"@.len());
                    assert("Sub"@.len() != "ReadDir"@.len());
                    assert("Sub"@.len() != "ReadEnv"@.len());
                    assert("Sub"@.len() != "ReadFile"@.len());
                    assert("Sub"@.len() != "ReadStdin"@.len());
                    assert("Sub"@.len() != "WriteFile"@.len());
                    assert("Sub"@.len() != "WriteStderr"@.len());
                    assert("Sub"@.len() != "WriteStdout"@.len());
                },
            }
        },
        BlockConfig::Sys(c) => {
            match c {
                SysBlockConfig::ReadDir { .. } => {
                    assert("ReadDir"@.len() != "Buffer"@.len());
                    assert("ReadDir"@.len() != "Const"@.len());
                    assert("ReadDir"@.len() != "Count"@.len());
                    assert("ReadDir"@.len() != "Delay"@.len());
                    assert("ReadDir"@.len() != "Drop"@.len());
                    assert("ReadDir"@.len() != "Random"@.len());
                    assert("ReadDir"@.len() != "Hash"@.len());
                    assert("ReadDir"@.len() != "Decode"@.len());
                    assert("ReadDir"@.len() != "Encode"@.len());
                    assert("ReadDir"@.len() != "EncodeHex"@.len());
                },
                SysBlockConfig::ReadEnv { .. } => {
                    assert("ReadEnv"@.len() != "Buffer"@.len());
                    assert("ReadEnv"@.len() != "Const"@.len());
                    assert("ReadEnv"@.len() != "Count"@.len());
                    assert("ReadEnv"@.len() != "Delay"@.len());
                    assert("ReadEnv"@.len() != "Drop"@.len());
                    assert("ReadEnv"@.len() != "Random"@.len());
                    assert("ReadEnv"@.len() != "Hash"@.len());
                    assert("ReadEnv"@.len() != "Decode"@.len());
                    assert("ReadEnv"@.len() != "Encode"@.len());
                    assert("ReadEnv"@.len() != "EncodeHex"@.len());
                },
                SysBlockConfig::ReadFile { .. } => {
                    assert("ReadFile"@.len() != "Buffer"@.len());
                    assert("ReadFile"@.len() != "Const"@.len());
                    assert("ReadFile"@.len() != "Count"@.len());
                    assert("ReadFile"@.len() != "Delay"@.len());
                    assert("ReadFile"@.len() != "Drop"@.len());
                    assert("ReadFile"@.len() != "Random"@.len());
                    assert("ReadFile"@.len() != "Hash"@.len());
                    assert("ReadFile"@.len() != "Decode"@.len());
                    assert("ReadFile"@.len() != "Encode"@.len());
                    assert("ReadFile"@.len() != "EncodeHex"@.len());
                },
                SysBlockConfig::ReadSocket { .. } => {
                    assert("ReadSocket"@.len() != "Buffer"@.len());
                    assert("ReadSocket"@.len() != "Const"@.len());
                    assert("ReadSocket"@.len() != "Count"@.len());
                    assert("ReadSocket"@.len() != "Delay"@.len());
                    assert("ReadSocket"@.len() != "Drop"@.len());
                    assert("ReadSocket"@.len() != "Random"@.len());
                    assert("ReadSocket"@.len() != "Hash"@.len());
                    assert("ReadSocket"@.len() != "Decode"@.len());
                    assert("ReadSocket"@.len() != "Encode"@.len());
                    assert("ReadSocket"@.len() != "EncodeHex"@.len());
                },
                SysBlockConfig::ReadStdin { .. } => {
                    assert("ReadStdin"@.len() != "Buffer"@.len());
                    assert("ReadStdin"@.len() != "Const"@.len());
                    assert("ReadStdin"@.len() != "Count"@.len());
                    assert("ReadStdin"@.len() != "Delay"@.len());
                    assert("ReadStdin"@.len() != "Drop"@.len());
                    assert("ReadStdin"@.len() != "Random"@.len());
                    assert("ReadStdin"@.len() != "Hash"@.len());
                    assert("ReadStdin"@.len() != "Decode"@.len());
                    assert("ReadStdin"@.len() != "Encode"@.len());
                    assert("ReadStdin"@[0] != "EncodeHex"@[0]);
                },
                SysBlockConfig::WriteFile { .. } => {
                    assert("WriteFile"@.len() != "Buffer"@.len());
                    assert("WriteFile"@.len() != "Const"@.len());
                    assert("WriteFile"@.len() != "Count"@.len());
                    assert("WriteFile"@.len() != "Delay"@.len());
                    assert("WriteFile"@.len() != "Drop"@.len());
                    assert("WriteFile"@.len() != "Random"@.len());
                    assert("WriteFile"@.len() != "Hash"@.len());
                    assert("WriteFile"@.len() != "Decode"@.len());
                    assert("WriteFile"@.len() != "Encode"@.len());
                    assert("WriteFile"@[0] != "EncodeHex"@[0]);
                },
                SysBlockConfig::WriteSocket { .. } => {
                    assert("WriteSocket"@.len() != "Buffer"@.len());
                    assert("WriteSocket"@.len() != "Const"@.len());
                    assert("WriteSocket"@.len() != "Count"@.len());
                    assert("WriteSocket"@.len() != "Delay"@.len());
                    assert("WriteSocket"@.len() != "Drop"@.len());
                    assert("WriteSocket"@.len() != "Random"@.len());
                    assert("WriteSocket"@.len() != "Hash"@.len());
                    assert("WriteSocket"@.len() != "Decode"@.len());
                    assert("WriteSocket"@.len() != "Encode"@.len());
                    assert("WriteSocket"@.len() != "EncodeHex"@.len());
                },
                SysBlockConfig::WriteStderr { .. } => {
                    assert("WriteStderr"@.len() != "Buffer"@.len());
                    assert("WriteStderr"@.len() != "Const"@.len());
                    assert("WriteStderr"@.len() != "Count"@.len());
                    assert("WriteStderr"@.len() != "Delay"@.len());
                    assert("WriteStderr"@.len() != "Drop"@.len());
                    assert("WriteStderr"@.len() != "Random"@.len());
                    assert("WriteStderr"@.len() != "Hash"@.len());
                    assert("WriteStderr"@.len() != "Decode"@.len());
                    assert("WriteStderr"@.len() != "Encode"@.len());
                    assert("WriteStderr"@.len() != "EncodeHex"@.len());
                },
                SysBlockConfig::WriteStdout { .. } => {
                    assert("WriteStdout"@.len() != "Buffer"@.len());
                    assert("WriteStdout"@.len() != "Const"@.len());
                    assert("WriteStdout"@.len() != "Count"@.len());
                    assert("WriteStdout"@.len() != "Delay"@.len());
                    assert("WriteStdout"@.len() != "Drop"@.len());
                    assert("WriteStdout"@.len() != "Random"@.len());
                    assert("WriteStdout"@.len() != "Hash"@.len());
                    assert("WriteStdout"@.len() != "Decode"@.len());
                    assert("WriteStdout"@.len() != "Encode"@.len());
                    assert("WriteStdout"@.len() != "EncodeHex"@.len());
                },
            }
        },
        BlockConfig::Text(c) => {
            match c {
                TextBlockConfig::ConcatStrings { .. } => {
                    assert("ConcatStrings"@.len() != "Buffer"@.len());
                    assert("ConcatStrings"@.len() != "Const"@.len());
                    assert("ConcatStrings"@.len() != "Count"@.len());
                    assert("ConcatStrings"@.len() != "Delay"@.len());
                    assert("ConcatStrings"@.len() != "Drop"@.len());
                    assert("ConcatStrings"@.len() != "Random"@.len());
                    assert("ConcatStrings"@.len() != "Hash"@.len());
                    assert("ConcatStrings"@.len() != "Decode"@.len());
                    assert("ConcatStrings"@.len() != "Encode"@.len());
                    assert("ConcatStrings"@.len() != "EncodeHex"@.len());
                    assert("ConcatStrings"@.len() != "ReadDir"@.len());
                    assert("ConcatStrings"@.len() != "ReadEnv"@.len());
                    assert("ConcatStrings"@.len() != "ReadFile"@.len());
                    assert("ConcatStrings"@.len() != "ReadStdin"@.len());
                    assert("ConcatStrings"@.len() != "WriteFile"@.len());
                    assert("ConcatStrings"@.len() != "WriteStderr"@.len());
                    assert("ConcatStrings"@.len() != "WriteStdout"@.len());
                },
                TextBlockConfig::DecodeCsv { .. } => {
                    assert("DecodeCSV"@.len() != "Buffer"@.len());
                    assert("DecodeCSV"@.len() != "Const"@.len());
                    assert("DecodeCSV"@.len() != "Count"@.len());
                    assert("DecodeCSV"@.len() != "Delay"@.len());
                    assert("DecodeCSV"@.len() != "Drop"@.len());
                    assert("DecodeCSV"@.len() != "Random"@.len());
                    assert("DecodeCSV"@.len() != "Hash"@.len());
                    assert("DecodeCSV"@.len() != "Decode"@.len());
                    assert("DecodeCSV"@.len() != "Encode"@.len());
                    assert("DecodeCSV"@[0] != "EncodeHex"@[0]);
                    assert("DecodeCSV"@.len() != "ReadDir"@.len());
                    assert("DecodeCSV"@.len() != "ReadEnv"@.len());
                    assert("DecodeCSV"@.len() != "ReadFile"@.len());
                    assert("DecodeCSV"@[0] != "ReadStdin"@[0]);
                    assert("DecodeCSV"@[0] != "WriteFile"@[0]);
                    assert("DecodeCSV"@.len() != "WriteStderr"@.len());
                    assert("DecodeCSV"@.len() != "WriteStdout"@.len());
                },
                TextBlockConfig::EncodeCsv { .. } => {
                    assert("EncodeCSV"@.len() != "Buffer"@.len());
                    assert("EncodeCSV"@.len() != "Const"@.len());
                    assert("EncodeCSV"@.len() != "Count"@.len());
                    assert("EncodeCSV"@.len() != "Delay"@.len());
                    assert("EncodeCSV"@.len() != "Drop"@.len());
                    assert("EncodeCSV"@.len() != "Random"@.len());
                    assert("EncodeCSV"@.len() != "Hash"@.len());
                    assert("EncodeCSV"@.len() != "Decode"@.len());
                    assert("EncodeCSV"@.len() != "Encode"@.len());
                    assert("EncodeCSV"@[6] != "EncodeHex"@[6]);
                    assert("EncodeCSV"@.len() != "ReadDir"@.len());
                    assert("EncodeCSV"@.len() != "ReadEnv"@.len());
                    assert("EncodeCSV"@.len() != "ReadFile"@.len());
                    assert("EncodeCSV"@[0] != "ReadStdin"@[0]);
                    assert("EncodeCSV"@[0] != "WriteFile"@[0]);
                    assert("EncodeCSV"@.len() != "WriteStderr"@.len());
                    assert("EncodeCSV"@.len() != "WriteStdout"@.len());
                },
                TextBlockConfig::SplitString { .. } => {
                    assert("SplitString"@.len() != "Buffer"@.len());
                    assert("SplitString"@.len() != "Const"@.len());
                    assert("SplitString"@.len() != "Count"@.len());
                    assert("SplitString"@.len() != "Delay"@.len());
                    assert("SplitString"@.len() != "Drop"@.len());
                    assert("SplitString"@.len() != "Random"@.len());
                    assert("SplitString"@.len() != "Hash"@.len());
                    assert("SplitString"@.len() != "Decode"@.len());
                    assert("SplitString"@.len() != "Encode"@.len());
                    assert("SplitString"@.len() != "EncodeHex"@.len());
                    assert("SplitString"@.len() != "ReadDir"@.len());
                    assert("SplitString"@.len() != "ReadEnv"@.len());
                    assert("SplitString"@.len() != "ReadFile"@.len());
                    assert("SplitString"@.len() != "ReadStdin"@.len());
                    assert("SplitString"@.len() != "WriteFile"@.len());
                    assert("SplitString"@[0] != "WriteStderr"@[0]);
                    assert("SplitString"@[0] != "WriteStdout"@[0]);
                },
            }
        },
    }
}

} // verus!
