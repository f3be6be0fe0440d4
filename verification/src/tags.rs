use crate::strings::str_eq;
use vstd::prelude::*;

verus! {

/// The kinds of blocks that can be named, listed and instantiated by tag.
#[derive(Clone, Copy, Debug, PartialEq, Eq, Structural, Hash, PartialOrd, Ord)]
pub enum BlockTag {
    Buffer,
    Const,
    Count,
    Delay,
    Drop,
    Random,
    Hash,
    Decode,
    DecodeHex,
    Encode,
    EncodeHex,
    EncodeJson,
    ReadDir,
    ReadEnv,
    ReadFile,
    ReadStdin,
    WriteFile,
    WriteStderr,
    WriteStdout,
}

/// Tags of the core blocks.
#[derive(Clone, Copy, Debug, PartialEq, Eq, Structural, Hash, PartialOrd, Ord)]
pub enum CoreBlockTag {
    Buffer,
    Const,
    Count,
    Delay,
    Drop,
    Random,
}

/// Tags of the flow-control blocks.
#[derive(Clone, Copy, Debug, PartialEq, Eq, Structural, Hash, PartialOrd, Ord)]
pub enum FlowBlockTag {
    Gate,
}

/// Tags of the hashing blocks.
#[derive(Clone, Copy, Debug, PartialEq, Eq, Structural, Hash, PartialOrd, Ord)]
pub enum HashBlockTag {
    Hash,
}

/// Tags of the encoding and decoding blocks.
#[derive(Clone, Copy, Debug, PartialEq, Eq, Structural, Hash, PartialOrd, Ord)]
pub enum IoBlockTag {
    Decode,
    Encode,
    EncodeHex,
    DecodeJson,
    EncodeJson,
}

/// Tags of the arithmetic blocks.
#[derive(Clone, Copy, Debug, PartialEq, Eq, Structural, Hash, PartialOrd, Ord)]
pub enum MathBlockTag {
    Add,
    Div,
    Mul,
    Sub,
}

/// Tags of the system (I/O) blocks.
#[derive(Clone, Copy, Debug, PartialEq, Eq, Structural, Hash, PartialOrd, Ord)]
pub enum SysBlockTag {
    ReadDir,
    ReadEnv,
    ReadFile,
    ReadSocket,
    ReadStdin,
    WriteFile,
    WriteSocket,
    WriteStderr,
    WriteStdout,
}

/// Tags of the text-processing blocks.
#[derive(Clone, Copy, Debug, PartialEq, Eq, Structural, Hash, PartialOrd, Ord)]
pub enum TextBlockTag {
    ConcatStrings,
    DecodeCsv,
    EncodeCsv,
    SplitString,
}

/// The canonical name of a block tag.
pub open spec fn tag_name(tag: BlockTag) -> Seq<char> {
    match tag {
        BlockTag::Buffer => "Buffer"@,
        BlockTag::Const => "Const"@,
        BlockTag::Count => "Count"@,
        BlockTag::Delay => "Delay"@,
        BlockTag::Drop => "Drop"@,
        BlockTag::Random => "Random"@,
        BlockTag::Hash => "Hash"@,
        BlockTag::Decode => "Decode"@,
        BlockTag::DecodeHex => "DecodeHex"@,
        BlockTag::Encode => "Encode"@,
        BlockTag::EncodeHex => "EncodeHex"@,
        BlockTag::EncodeJson => "EncodeJSON"@,
        BlockTag::ReadDir => "ReadDir"@,
        BlockTag::ReadEnv => "ReadEnv"@,
        BlockTag::ReadFile => "ReadFile"@,
        BlockTag::ReadStdin => "ReadStdin"@,
        BlockTag::WriteFile => "WriteFile"@,
        BlockTag::WriteStderr => "WriteStderr"@,
        BlockTag::WriteStdout => "WriteStdout"@,
    }
}

/// The tag whose canonical name is `name`, if any.
pub open spec fn tag_of_name(name: Seq<char>) -> Option<BlockTag> {
    if name == "Buffer"@ {
        Some(BlockTag::Buffer)
    } else if name == "Const"@ {
        Some(BlockTag::Const)
    } else if name == "Count"@ {
        Some(BlockTag::Count)
    } else if name == "Delay"@ {
        Some(BlockTag::Delay)
    } else if name == "Drop"@ {
        Some(BlockTag::Drop)
    } else if name == "Random"@ {
        Some(BlockTag::Random)
    } else if name == "Hash"@ {
        Some(BlockTag::Hash)
    } else if name == "Decode"@ {
        Some(BlockTag::Decode)
    } else if name == "DecodeHex"@ {
        Some(BlockTag::DecodeHex)
    } else if name == "Encode"@ {
        Some(BlockTag::Encode)
    } else if name == "EncodeHex"@ {
        Some(BlockTag::EncodeHex)
    } else if name == "EncodeJSON"@ {
        Some(BlockTag::EncodeJson)
    } else if name == "ReadDir"@ {
        Some(BlockTag::ReadDir)
    } else if name == "ReadEnv"@ {
        Some(BlockTag::ReadEnv)
    } else if name == "ReadFile"@ {
        Some(BlockTag::ReadFile)
    } else if name == "ReadStdin"@ {
        Some(BlockTag::ReadStdin)
    } else if name == "WriteFile"@ {
        Some(BlockTag::WriteFile)
    } else if name == "WriteStderr"@ {
        Some(BlockTag::WriteStderr)
    } else if name == "WriteStdout"@ {
        Some(BlockTag::WriteStdout)
    } else {
        None
    }
}

/// Every block tag, in declaration order.
pub open spec fn all_tags() -> Seq<BlockTag> {
    seq![
        BlockTag::Buffer,
        BlockTag::Const,
        BlockTag::Count,
        BlockTag::Delay,
        BlockTag::Drop,
        BlockTag::Random,
        BlockTag::Hash,
        BlockTag::Decode,
        BlockTag::DecodeHex,
        BlockTag::Encode,
        BlockTag::EncodeHex,
        BlockTag::EncodeJson,
        BlockTag::ReadDir,
        BlockTag::ReadEnv,
        BlockTag::ReadFile,
        BlockTag::ReadStdin,
        BlockTag::WriteFile,
        BlockTag::WriteStderr,
        BlockTag::WriteStdout,
    ]
}

/// Position of a tag in declaration order.
pub open spec fn tag_index(tag: BlockTag) -> int {
    match tag {
        BlockTag::Buffer => 0,
        BlockTag::Const => 1,
        BlockTag::Count => 2,
        BlockTag::Delay => 3,
        BlockTag::Drop => 4,
        BlockTag::Random => 5,
        BlockTag::Hash => 6,
        BlockTag::Decode => 7,
        BlockTag::DecodeHex => 8,
        BlockTag::Encode => 9,
        BlockTag::EncodeHex => 10,
        BlockTag::EncodeJson => 11,
        BlockTag::ReadDir => 12,
        BlockTag::ReadEnv => 13,
        BlockTag::ReadFile => 14,
        BlockTag::ReadStdin => 15,
        BlockTag::WriteFile => 16,
        BlockTag::WriteStderr => 17,
        BlockTag::WriteStdout => 18,
    }
}



/// Parsing the canonical name of a tag gives back that tag.
pub proof fn lemma_name_roundtrip(tag: BlockTag)
    ensures
        tag_of_name(tag_name(tag)) == Some(tag),
{
    reveal_strlit("Buffer");
    reveal_strlit("Const");
    reveal_strlit("Count");
    reveal_strlit("Delay");
    reveal_strlit("Drop");
    reveal_strlit("Random");
    reveal_strlit("Hash");
    reveal_strlit("Decode");
    reveal_strlit("DecodeHex");
    reveal_strlit("Encode");
    reveal_strlit("EncodeHex");
    reveal_strlit("EncodeJSON");
    reveal_strlit("ReadDir");
    reveal_strlit("ReadEnv");
    reveal_strlit("ReadFile");
    reveal_strlit("ReadStdin");
    reveal_strlit("WriteFile");
    reveal_strlit("WriteStderr");
    reveal_strlit("WriteStdout");
    match tag {
        BlockTag::Buffer => {

        },
        BlockTag::Const => {
            assert("Const"@.len() != "Buffer"@.len());
        },
        BlockTag::Count => {
            assert("Count"@.len() != "Buffer"@.len());
            assert("Count"@[2] != "Const"@[2]);
        },
        BlockTag::Delay => {
            assert("Delay"@.len() != "Buffer"@.len());
            assert("Delay"@[0] != "Const"@[0]);
            assert("Delay"@[0] != "Count"@[0]);
        },
        BlockTag::Drop => {
            assert("Drop"@.len() != "Buffer"@.len());
            assert("Drop"@.len() != "Const"@.len());
            assert("Drop"@.len() != "Count"@.len());
            assert("Drop"@.len() != "Delay"@.len());
        },
        BlockTag::Random => {
            assert("Random"@[0] != "Buffer"@[0]);
            assert("Random"@.len() != "Const"@.len());
            assert("Random"@.len() != "Count"@.len());
            assert("Random"@.len() != "Delay"@.len());
            assert("Random"@.len() != "Drop"@.len());
        },
        BlockTag::Hash => {
            assert("Hash"@.len() != "Buffer"@.len());
            assert("Hash"@.len() != "Const"@.len());
            assert("Hash"@.len() != "Count"@.len());
            assert("Hash"@.len() != "Delay"@.len());
            assert("Hash"@[0] != "Drop"@[0]);
            assert("Hash"@.len() != "Random"@.len());
        },
        BlockTag::Decode => {
            assert("Decode"@[0] != "Buffer"@[0]);
            assert("Decode"@.len() != "Const"@.len());
            assert("Decode"@.len() != "Count"@.len());
            assert("Decode"@.len() != "Delay"@.len());
            assert("Decode"@.len() != "Drop"@.len());
            assert("Decode"@[0] != "Random"@[0]);
            assert("Decode"@.len() != "Hash"@.len());
        },
        BlockTag::DecodeHex => {
            assert("DecodeHex"@.len() != "Buffer"@.len());
            assert("DecodeHex"@.len() != "Const"@.len());
            assert("DecodeHex"@.len() != "Count"@.len());
            assert("DecodeHex"@.len() != "Delay"@.len());
            assert("DecodeHex"@.len() != "Drop"@.len());
            assert("DecodeHex"@.len() != "Random"@.len());
            assert("DecodeHex"@.len() != "Hash"@.len());
            assert("DecodeHex"@.len() != "Decode"@.len());
        },
        BlockTag::Encode => {
            assert("Encode"@[0] != "Buffer"@[0]);
            assert("Encode"@.len() != "Const"@.len());
            assert("Encode"@.len() != "Count"@.len());
            assert("Encode"@.len() != "Delay"@.len());
            assert("Encode"@.len() != "Drop"@.len());
            assert("Encode"@[0] != "Random"@[0]);
            assert("Encode"@.len() != "Hash"@.len());
            assert("Encode"@[0] != "Decode"@[0]);
            assert("Encode"@.len() != "DecodeHex"@.len());
        },
        BlockTag::EncodeHex => {
            assert("EncodeHex"@.len() != "Buffer"@.len());
            assert("EncodeHex"@.len() != "Const"@.len());
            assert("EncodeHex"@.len() != "Count"@.len());
            assert("EncodeHex"@.len() != "Delay"@.len());
            assert("EncodeHex"@.len() != "Drop"@.len());
            assert("EncodeHex"@.len() != "Random"@.len());
            assert("EncodeHex"@.len() != "Hash"@.len());
            assert("EncodeHex"@.len() != "Decode"@.len());
            assert("EncodeHex"@[0] != "DecodeHex"@[0]);
            assert("EncodeHex"@.len() != "Encode"@.len());
        },
        BlockTag::EncodeJson => {
            assert("EncodeJSON"@.len() != "Buffer"@.len());
            assert("EncodeJSON"@.len() != "Const"@.len());
            assert("EncodeJSON"@.len() != "Count"@.len());
            assert("EncodeJSON"@.len() != "Delay"@.len());
            assert("EncodeJSON"@.len() != "Drop"@.len());
            assert("EncodeJSON"@.len() != "Random"@.len());
            assert("EncodeJSON"@.len() != "Hash"@.len());
            assert("EncodeJSON"@.len() != "Decode"@.len());
            assert("EncodeJSON"@.len() != "DecodeHex"@.len());
            assert("EncodeJSON"@.len() != "Encode"@.len());
            assert("EncodeJSON"@.len() != "EncodeHex"@.len());
        },
        BlockTag::ReadDir => {
            assert("ReadDir"@.len() != "Buffer"@.len());
            assert("ReadDir"@.len() != "Const"@.len());
            assert("ReadDir"@.len() != "Count"@.len());
            assert("ReadDir"@.len() != "Delay"@.len());
            assert("ReadDir"@.len() != "Drop"@.len());
            assert("ReadDir"@.len() != "Random"@.len());
            assert("ReadDir"@.len() != "Hash"@.len());
            assert("ReadDir"@.len() != "Decode"@.len());
            assert("ReadDir"@.len() != "DecodeHex"@.len());
            assert("ReadDir"@.len() != "Encode"@.len());
            assert("ReadDir"@.len() != "EncodeHex"@.len());
            assert("ReadDir"@.len() != "EncodeJSON"@.len());
        },
        BlockTag::ReadEnv => {
            assert("ReadEnv"@.len() != "Buffer"@.len());
            assert("ReadEnv"@.len() != "Const"@.len());
            assert("ReadEnv"@.len() != "Count"@.len());
            assert("ReadEnv"@.len() != "Delay"@.len());
            assert("ReadEnv"@.len() != "Drop"@.len());
            assert("ReadEnv"@.len() != "Random"@.len());
            assert("ReadEnv"@.len() != "Hash"@.len());
            assert("ReadEnv"@.len() != "Decode"@.len());
            assert("ReadEnv"@.len() != "DecodeHex"@.len());
            assert("ReadEnv"@.len() != "Encode"@.len());
            assert("ReadEnv"@.len() != "EncodeHex"@.len());
            assert("ReadEnv"@.len() != "EncodeJSON"@.len());
            assert("ReadEnv"@[4] != "ReadDir"@[4]);
        },
        BlockTag::ReadFile => {
            assert("ReadFile"@.len() != "Buffer"@.len());
            assert("ReadFile"@.len() != "Const"@.len());
            assert("ReadFile"@.len() != "Count"@.len());
            assert("ReadFile"@.len() != "Delay"@.len());
            assert("ReadFile"@.len() != "Drop"@.len());
            assert("ReadFile"@.len() != "Random"@.len());
            assert("ReadFile"@.len() != "Hash"@.len());
            assert("ReadFile"@.len() != "Decode"@.len());
            assert("ReadFile"@.len() != "DecodeHex"@.len());
            assert("ReadFile"@.len() != "Encode"@.len());
            assert("ReadFile"@.len() != "EncodeHex"@.len());
            assert("ReadFile"@.len() != "EncodeJSON"@.len());
            assert("ReadFile"@.len() != "ReadDir"@.len());
            assert("ReadFile"@.len() != "ReadEnv"@.len());
        },
        BlockTag::ReadStdin => {
            assert("ReadStdin"@.len() != "Buffer"@.len());
            assert("ReadStdin"@.len() != "Const"@.len());
            assert("ReadStdin"@.len() != "Count"@.len());
            assert("ReadStdin"@.len() != "Delay"@.len());
            assert("ReadStdin"@.len() != "Drop"@.len());
            assert("ReadStdin"@.len() != "Random"@.len());
            assert("ReadStdin"@.len() != "Hash"@.len());
            assert("ReadStdin"@.len() != "Decode"@.len());
            assert("ReadStdin"@[0] != "DecodeHex"@[0]);
            assert("ReadStdin"@.len() != "Encode"@.len());
            assert("ReadStdin"@[0] != "EncodeHex"@[0]);
            assert("ReadStdin"@.len() != "EncodeJSON"@.len());
            assert("ReadStdin"@.len() != "ReadDir"@.len());
            assert("ReadStdin"@.len() != "ReadEnv"@.len());
            assert("ReadStdin"@.len() != "ReadFile"@.len());
        },
        BlockTag::WriteFile => {
            assert("WriteFile"@.len() != "Buffer"@.len());
            assert("WriteFile"@.len() != "Const"@.len());
            assert("WriteFile"@.len() != "Count"@.len());
            assert("WriteFile"@.len() != "Delay"@.len());
            assert("WriteFile"@.len() != "Drop"@.len());
            assert("WriteFile"@.len() != "Random"@.len());
            assert("WriteFile"@.len() != "Hash"@.len());
            assert("WriteFile"@.len() != "Decode"@.len());
            assert("WriteFile"@[0] != "DecodeHex"@[0]);
            assert("WriteFile"@.len() != "Encode"@.len());
            assert("WriteFile"@[0] != "EncodeHex"@[0]);
            assert("WriteFile"@.len() != "EncodeJSON"@.len());
            assert("WriteFile"@.len() != "ReadDir"@.len());
            assert("WriteFile"@.len() != "ReadEnv"@.len());
            assert("WriteFile"@.len() != "ReadFile"@.len());
            assert("WriteFile"@[0] != "ReadStdin"@[0]);
        },
        BlockTag::WriteStderr => {
            assert("WriteStderr"@.len() != "Buffer"@.len());
            assert("WriteStderr"@.len() != "Const"@.len());
            assert("WriteStderr"@.len() != "Count"@.len());
            assert("WriteStderr"@.len() != "Delay"@.len());
            assert("WriteStderr"@.len() != "Drop"@.len());
            assert("WriteStderr"@.len() != "Random"@.len());
            assert("WriteStderr"@.len() != "Hash"@.len());
            assert("WriteStderr"@.len() != "Decode"@.len());
            assert("WriteStderr"@.len() != "DecodeHex"@.len());
            assert("WriteStderr"@.len() != "Encode"@.len());
            assert("WriteStderr"@.len() != "EncodeHex"@.len());
            assert("WriteStderr"@.len() != "EncodeJSON"@.len());
            assert("WriteStderr"@.len() != "ReadDir"@.len());
            assert("WriteStderr"@.len() != "ReadEnv"@.len());
            assert("WriteStderr"@.len() != "ReadFile"@.len());
            assert("WriteStderr"@.len() != "ReadStdin"@.len());
            assert("WriteStderr"@.len() != "WriteFile"@.len());
        },
        BlockTag::WriteStdout => {
            assert("WriteStdout"@.len() != "Buffer"@.len());
            assert("WriteStdout"@.len() != "Const"@.len());
            assert("WriteStdout"@.len() != "Count"@.len());
            assert("WriteStdout"@.len() != "Delay"@.len());
            assert("WriteStdout"@.len() != "Drop"@.len());
            assert("WriteStdout"@.len() != "Random"@.len());
            assert("WriteStdout"@.len() != "Hash"@.len());
            assert("WriteStdout"@.len() != "Decode"@.len());
            assert("WriteStdout"@.len() != "DecodeHex"@.len());
            assert("WriteStdout"@.len() != "Encode"@.len());
            assert("WriteStdout"@.len() != "EncodeHex"@.len());
            assert("WriteStdout"@.len() != "EncodeJSON"@.len());
            assert("WriteStdout"@.len() != "ReadDir"@.len());
            assert("WriteStdout"@.len() != "ReadEnv"@.len());
            assert("WriteStdout"@.len() != "ReadFile"@.len());
            assert("WriteStdout"@.len() != "ReadStdin"@.len());
            assert("WriteStdout"@.len() != "WriteFile"@.len());
            assert("WriteStdout"@[8] != "WriteStderr"@[8]);
        },
    }
}

/// Different tags have different canonical names.
pub proof fn lemma_names_distinct(a: BlockTag, b: BlockTag)
    requires
        a != b,
    ensures
        tag_name(a) != tag_name(b),
{
    lemma_name_roundtrip(a);
    lemma_name_roundtrip(b);
}

/// A name that parses to a tag is that tag's canonical name.
pub proof fn lemma_parsed_name_is_canonical(name: Seq<char>)
    ensures
        tag_of_name(name) matches Some(t) ==> tag_name(t) == name,
{
}

/// The list of all tags holds every tag exactly once, at its declaration position.
pub proof fn lemma_all_tags_complete(tag: BlockTag)
    ensures
        0 <= tag_index(tag) < all_tags().len(),
        all_tags()[tag_index(tag)] == tag,
        all_tags().contains(tag),
        all_tags().no_duplicates(),
{
    assert(all_tags()[tag_index(tag)] == tag);
    assert forall|i: int, j: int| 0 <= i < all_tags().len() && 0 <= j < all_tags().len() && i != j
        implies all_tags()[i] != all_tags()[j] by {
        assert(tag_index(all_tags()[i]) == i);
        assert(tag_index(all_tags()[j]) == j);
    }
}

impl std::str::FromStr for BlockTag {
    type Err = ();

    /// The tag with the given canonical name; `Err(())` for any other text.
    fn from_str(input: &str) -> (r: Result<BlockTag, ()>)
        ensures
            match tag_of_name(input@) {
                Some(t) => r == Ok::<BlockTag, ()>(t),
                None => r == Err::<BlockTag, ()>(()),
            },
    {
        match BlockTag::from_name(input) {
            Some(t) => Ok(t),
            None => Err(()),
        }
    }
}

impl BlockTag {
    /// The number of block tags.
    pub fn count() -> (n: usize)
        ensures
            n == all_tags().len(),
    {
        19
    }

    /// Every block tag, in declaration order.
    pub fn all() -> (v: Vec<BlockTag>)
        ensures
            v@ == all_tags(),
    {
        let mut v: Vec<BlockTag> = Vec::new();
        v.push(BlockTag::Buffer);
        v.push(BlockTag::Const);
        v.push(BlockTag::Count);
        v.push(BlockTag::Delay);
        v.push(BlockTag::Drop);
        v.push(BlockTag::Random);
        v.push(BlockTag::Hash);
        v.push(BlockTag::Decode);
        v.push(BlockTag::DecodeHex);
        v.push(BlockTag::Encode);
        v.push(BlockTag::EncodeHex);
        v.push(BlockTag::EncodeJson);
        v.push(BlockTag::ReadDir);
        v.push(BlockTag::ReadEnv);
        v.push(BlockTag::ReadFile);
        v.push(BlockTag::ReadStdin);
        v.push(BlockTag::WriteFile);
        v.push(BlockTag::WriteStderr);
        v.push(BlockTag::WriteStdout);
        assert(v@ =~= all_tags());
        v
    }

    /// The canonical name of this tag.
    pub fn as_str(&self) -> (s: &'static str)
        ensures
            s@ == tag_name(*self),
    {
        match self {
            BlockTag::Buffer => "Buffer",
            BlockTag::Const => "Const",
            BlockTag::Count => "Count",
            BlockTag::Delay => "Delay",
            BlockTag::Drop => "Drop",
            BlockTag::Random => "Random",
            BlockTag::Hash => "Hash",
            BlockTag::Decode => "Decode",
            BlockTag::DecodeHex => "DecodeHex",
            BlockTag::Encode => "Encode",
            BlockTag::EncodeHex => "EncodeHex",
            BlockTag::EncodeJson => "EncodeJSON",
            BlockTag::ReadDir => "ReadDir",
            BlockTag::ReadEnv => "ReadEnv",
            BlockTag::ReadFile => "ReadFile",
            BlockTag::ReadStdin => "ReadStdin",
            BlockTag::WriteFile => "WriteFile",
            BlockTag::WriteStderr => "WriteStderr",
            BlockTag::WriteStdout => "WriteStdout",
        }
    }

    /// The tag with the given canonical name, if any.
    pub fn from_name(input: &str) -> (r: Option<BlockTag>)
        ensures
            r == tag_of_name(input@),
    {
        if str_eq(input, "Buffer") {
            return Some(BlockTag::Buffer);
        }
        if str_eq(input, "Const") {
            return Some(BlockTag::Const);
        }
        if str_eq(input, "Count") {
            return Some(BlockTag::Count);
        }
        if str_eq(input, "Delay") {
            return Some(BlockTag::Delay);
        }
        if str_eq(input, "Drop") {
            return Some(BlockTag::Drop);
        }
        if str_eq(input, "Random") {
            return Some(BlockTag::Random);
        }
        if str_eq(input, "Hash") {
            return Some(BlockTag::Hash);
        }
        if str_eq(input, "Decode") {
            return Some(BlockTag::Decode);
        }
        if str_eq(input, "DecodeHex") {
            return Some(BlockTag::DecodeHex);
        }
        if str_eq(input, "Encode") {
            return Some(BlockTag::Encode);
        }
        if str_eq(input, "EncodeHex") {
            return Some(BlockTag::EncodeHex);
        }
        if str_eq(input, "EncodeJSON") {
            return Some(BlockTag::EncodeJson);
        }
        if str_eq(input, "ReadDir") {
            return Some(BlockTag::ReadDir);
        }
        if str_eq(input, "ReadEnv") {
            return Some(BlockTag::ReadEnv);
        }
        if str_eq(input, "ReadFile") {
            return Some(BlockTag::ReadFile);
        }
        if str_eq(input, "ReadStdin") {
            return Some(BlockTag::ReadStdin);
        }
        if str_eq(input, "WriteFile") {
            return Some(BlockTag::WriteFile);
        }
        if str_eq(input, "WriteStderr") {
            return Some(BlockTag::WriteStderr);
        }
        if str_eq(input, "WriteStdout") {
            return Some(BlockTag::WriteStdout);
        }
        None
    }
}

} // verus!
