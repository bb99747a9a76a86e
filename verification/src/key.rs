//! The member names of a response object.

use vstd::prelude::*;
use vstd::string::*;

verus! {

/// The members that a response object may have.
#[derive(Clone, Copy, Debug, PartialEq, Eq, Structural)]
pub enum Key {
    /// `jsonrpc`: the protocol version.
    JsonRpc,
    /// `result`: the payload of a success.
    Result,
    /// `error`: the payload of a failure.
    Error,
    /// `id`: the identifier of the request answered.
    Id,
}

/// The lower-case form of an ASCII capital letter; any other character is
/// left as it is.
pub open spec fn fold_ascii(c: char) -> char {
    if 'A' <= c && c <= 'Z' {
        ((c as u32) + 32) as char
    } else {
        c
    }
}

/// Whether two texts are equal once their ASCII capital letters are folded to
/// lower case.
pub open spec fn eq_ignoring_ascii_case(a: Seq<char>, b: Seq<char>) -> bool {
    &&& a.len() == b.len()
    &&& forall|i: int| 0 <= i < a.len() ==> fold_ascii(#[trigger] a[i]) == fold_ascii(b[i])
}

fn fold_byte(b: u8) -> (folded: u8)
    ensures
        folded == if 65 <= b <= 90 {
            (b + 32) as u8
        } else {
            b
        },
{
    if 65 <= b && b <= 90 {
        b + 32
    } else {
        b
    }
}

/// Whether `text` is the ASCII `word` up to the case of its ASCII letters.
pub fn matches_word(text: &str, word: &str) -> (same: bool)
    requires
        is_ascii(word),
    ensures
        same == eq_ignoring_ascii_case(text@, word@),
{
    broadcast use is_ascii_spec_bytes;

    if !text.is_ascii() {
        proof {
            if eq_ignoring_ascii_case(text@, word@) {
                let i = choose|i: int| 0 <= i < text@.len() && !(text@[i] as u32 <= 127);
                assert(fold_ascii(text@[i]) == fold_ascii(word@[i]));
            }
        }
        return false;
    }
    let n: usize = text.as_bytes().len();
    if word.as_bytes().len() != n {
        return false;
    }
    let mut i: usize = 0;
    while i < n
        invariant
            i <= n,
            n == text@.len(),
            n == word@.len(),
            is_ascii(text),
            is_ascii(word),
            forall|j: int| 0 <= j < i ==> fold_ascii(#[trigger] text@[j]) == fold_ascii(word@[j]),
        decreases n - i,
    {
        let a: u8 = text.get_ascii(i);
        let b: u8 = word.get_ascii(i);
        if fold_byte(a) != fold_byte(b) {
            assert(fold_ascii(text@[i as int]) != fold_ascii(word@[i as int]));
            return false;
        }
        assert(fold_ascii(text@[i as int]) == fold_ascii(word@[i as int]));
        i = i + 1;
    }
    true
}

impl Key {
    /// The name of the member.
    pub open spec fn spec_name(self) -> Seq<char> {
        match self {
            Key::JsonRpc => "jsonrpc"@,
            Key::Result => "result"@,
            Key::Error => "error"@,
            Key::Id => "id"@,
        }
    }

    /// The member that a name stands for: names are matched without regard
    /// to the case of their ASCII letters.
    pub open spec fn spec_parse(text: Seq<char>) -> Option<Key> {
        if eq_ignoring_ascii_case(text, "jsonrpc"@) {
            Some(Key::JsonRpc)
        } else if eq_ignoring_ascii_case(text, "result"@) {
            Some(Key::Result)
        } else if eq_ignoring_ascii_case(text, "error"@) {
            Some(Key::Error)
        } else if eq_ignoring_ascii_case(text, "id"@) {
            Some(Key::Id)
        } else {
            None
        }
    }

    /// The name of the member.
    pub fn name(&self) -> (text: &'static str)
        ensures
            text@ == self.spec_name(),
    {
        match self {
            Key::JsonRpc => "jsonrpc",
            Key::Result => "result",
            Key::Error => "error",
            Key::Id => "id",
        }
    }

    /// What a name must be to stand for a member, for a diagnostic.
    pub fn expecting() -> (text: &'static str)
        ensures
            text@
                == "Key must be a string and one of the following values: ['jsonrpc', 'result', 'error', 'id']"@,
    {
        "Key must be a string and one of the following values: ['jsonrpc', 'result', 'error', 'id']"
    }

    /// The member that `text` names, if it names one.
    pub fn parse(text: &str) -> (key: Option<Self>)
        ensures
            key == Self::spec_parse(text@),
    {
        proof {
            reveal_strlit("jsonrpc");
            reveal_strlit("result");
            reveal_strlit("error");
            reveal_strlit("id");
        }
        if matches_word(text, "jsonrpc") {
            Some(Key::JsonRpc)
        } else if matches_word(text, "result") {
            Some(Key::Result)
        } else if matches_word(text, "error") {
            Some(Key::Error)
        } else if matches_word(text, "id") {
            Some(Key::Id)
        } else {
            None
        }
    }

    /// Every member is named by its own name.
    pub proof fn lemma_name_parses(key: Key)
        ensures
            Self::spec_parse(key.spec_name()) == Some(key),
    {
        reveal_strlit("jsonrpc");
        reveal_strlit("result");
        reveal_strlit("error");
        reveal_strlit("id");
        assert("jsonrpc"@.len() == 7 && "result"@.len() == 6 && "error"@.len() == 5 && "id"@.len()
            == 2);
    }
}

} // verus!
