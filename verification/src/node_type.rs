//! Node types: the token on the command line, the creation mode it names,
//! and the path that a creation reports.

use vstd::prelude::*;
use vstd::string::*;
use crate::error::{CommandError, CommandErrorView};
use crate::numeral::{decimal, push_decimal};

verus! {

/// How long a created node lives, and whether the store numbers it.
#[derive(Clone, Copy, Debug, PartialEq, Eq)]
pub enum CreateMode {
    /// Outlives the session that created it.
    Persistent,
    /// Deleted when the creating session ends.
    Ephemeral,
    /// Persistent, with a sequence number appended to the path by the store.
    PersistentSequential,
    /// Ephemeral, with a sequence number appended to the path by the store.
    EphemeralSequential,
}

/// A letter `A` to `Z` as its lower-case letter; any other character unchanged.
pub open spec fn lower_char(c: char) -> char {
    if 'A' <= c && c <= 'Z' {
        ((c as int) + 32) as char
    } else {
        c
    }
}

/// The text with every letter `A` to `Z` in lower case.
pub open spec fn lowered(text: Seq<char>) -> Seq<char> {
    Seq::new(text.len(), |i: int| lower_char(text[i]))
}

/// The creation mode that a token names, whatever the case of its letters.
pub open spec fn mode_of(token: Seq<char>) -> Option<CreateMode> {
    let word = lowered(token);
    if word == "persistent"@ || word == "p"@ {
        Some(CreateMode::Persistent)
    } else if word == "ephemeral"@ || word == "e"@ {
        Some(CreateMode::Ephemeral)
    } else if word == "persistent-sequential"@ || word == "ps"@ {
        Some(CreateMode::PersistentSequential)
    } else if word == "ephemeral-sequential"@ || word == "es"@ {
        Some(CreateMode::EphemeralSequential)
    } else {
        None
    }
}

/// Whether the store appends a sequence number to nodes of this mode.
pub open spec fn sequential(mode: CreateMode) -> bool {
    mode == CreateMode::PersistentSequential || mode == CreateMode::EphemeralSequential
}

/// The path of a node created at `path`: for a sequential mode the path
/// followed by the decimal numeral of the assigned number, else the path.
pub open spec fn created_path_spec(path: Seq<char>, mode: CreateMode, sequence: int) -> Seq<char> {
    if sequential(mode) {
        path + decimal(sequence)
    } else {
        path
    }
}

/// One character in lower case.
pub fn to_lower(c: char) -> (l: char)
    ensures
        l == lower_char(c),
{
    if c >= 'A' && c <= 'Z' {
        ((c as u8) + 32) as char
    } else {
        c
    }
}

/// Whether `token`, with its letters in lower case, is `word`.
pub fn is_word(token: &str, word: &str) -> (same: bool)
    ensures
        same == (lowered(token@) == word@),
{
    let n = token.unicode_len();
    if n != word.unicode_len() {
        return false;
    }
    let mut i: usize = 0;
    while i < n
        invariant
            i <= n,
            n == token@.len(),
            n == word@.len(),
            forall|j: int| 0 <= j < i ==> lower_char(token@[j]) == word@[j],
        decreases n - i,
    {
        if to_lower(token.get_char(i)) != word.get_char(i) {
            return false;
        }
        i += 1;
    }
    assert(lowered(token@) =~= word@);
    true
}

/// Resolves a node-type token, in any case, to its creation mode.
///
/// The tokens are `persistent`, `ephemeral`, `persistent-sequential`,
/// `ephemeral-sequential` and their short forms `p`, `e`, `ps`, `es`. Any
/// other token is a usage error that carries the token as it was given.
pub fn parse_create_mode(node_type: &str) -> (result: Result<CreateMode, CommandError>)
    ensures
        match mode_of(node_type@) {
            Some(mode) => result == Ok::<CreateMode, CommandError>(mode),
            None => result matches Err(error) && error@ == CommandErrorView::InvalidNodeType(
                node_type@,
            ),
        },
{
    if is_word(node_type, "persistent") || is_word(node_type, "p") {
        Ok(CreateMode::Persistent)
    } else if is_word(node_type, "ephemeral") || is_word(node_type, "e") {
        Ok(CreateMode::Ephemeral)
    } else if is_word(node_type, "persistent-sequential") || is_word(node_type, "ps") {
        Ok(CreateMode::PersistentSequential)
    } else if is_word(node_type, "ephemeral-sequential") || is_word(node_type, "es") {
        Ok(CreateMode::EphemeralSequential)
    } else {
        Err(CommandError::InvalidNodeType(node_type.to_owned()))
    }
}

impl CreateMode {
    /// Whether the store appends a sequence number to nodes of this mode.
    pub fn is_sequential(self) -> (numbered: bool)
        ensures
            numbered == sequential(self),
    {
        match self {
            CreateMode::PersistentSequential => true,
            CreateMode::EphemeralSequential => true,
            _ => false,
        }
    }
}

/// The path under which a creation request for `path` made the node.
pub fn created_path(path: &str, mode: CreateMode, sequence: i64) -> (actual: String)
    ensures
        actual@ == created_path_spec(path@, mode, sequence as int),
{
    let mut actual = String::from_str(path);
    if mode.is_sequential() {
        push_decimal(&mut actual, sequence);
    }
    actual
}

} // verus!
