//! Version texts from what `git` prints.

use vstd::prelude::*;
use vstd::utf8::*;

use crate::text::{lemma_trimmed, same, trim, trimmed, utf8_text, white_space};

verus! {

/// The text of what a command printed, without the white space around it;
/// `unknown` where the command could not be run or printed no UTF-8.
pub open spec fn output_text(stdout: Option<Seq<u8>>) -> Seq<char> {
    match stdout {
        Some(bytes) if valid_utf8(bytes) => trimmed(decode_utf8(bytes)),
        _ => "unknown"@,
    }
}

/// The text of what a command printed.
pub fn version_text(stdout: Option<Vec<u8>>) -> (r: String)
    ensures
        r@ == output_text(
            match stdout {
                Some(bytes) => Some(bytes@),
                None => None,
            },
        ),
{
    match stdout {
        Some(bytes) => match utf8_text(bytes) {
            Some(text) => {
                proof {
                    encode_utf8_decode_utf8(text@);
                }
                trim(text.as_str())
            },
            None => "unknown".to_owned(),
        },
        None => "unknown".to_owned(),
    }
}

/// The short form of a commit: its first seven characters, and `unknown` for
/// an unknown one.
pub open spec fn shortened(commit: Seq<char>) -> Seq<char> {
    if commit == "unknown"@ {
        "unknown"@
    } else if commit.len() <= 7 {
        commit
    } else {
        commit.subrange(0, 7)
    }
}

/// The short form of a commit.
pub fn short_commit(commit: &str) -> (r: String)
    ensures
        r@ == shortened(commit@),
{
    if same(commit, "unknown") {
        return "unknown".to_owned();
    }
    if commit.unicode_len() <= 7 {
        commit.to_owned()
    } else {
        commit.substring_char(0, 7).to_owned()
    }
}

/// The short form of a commit is its start, of seven characters where there are
/// as many; only what is unknown stays whole.
pub proof fn lemma_short_commit_is_a_start(commit: Seq<char>, i: int)
    requires
        0 <= i < shortened(commit).len(),
    ensures
        shortened(commit).len() <= commit.len(),
        shortened(commit)[i] == commit[i],
        commit != "unknown"@ && commit.len() >= 7 ==> shortened(commit).len() == 7,
        commit == "unknown"@ || commit.len() <= 7 ==> shortened(commit) == commit,
{
}

/// A text that a command printed is taken without the white space around it:
/// what is taken off is white space, and what is left neither starts nor ends
/// with any. Without output the text is unknown.
pub proof fn lemma_output_is_trimmed(s: Seq<char>)
    ensures
        exists|i: int, j: int|
            #![trigger s.subrange(i, j)]
            {
                &&& 0 <= i <= j <= s.len()
                &&& output_text(Some(encode_utf8(s))) == s.subrange(i, j)
                &&& forall|k: int| 0 <= k < i ==> white_space(#[trigger] s[k])
                &&& forall|k: int| j <= k < s.len() ==> white_space(#[trigger] s[k])
                &&& i < j ==> !white_space(s[i]) && !white_space(s[j - 1])
            },
        output_text(None) == "unknown"@,
{
    encode_utf8_valid_utf8(s);
    encode_utf8_decode_utf8(s);
    lemma_trimmed(s);
    let (i, j) = choose|i: int, j: int|
        #![trigger s.subrange(i, j)]
        {
            &&& 0 <= i <= j <= s.len()
            &&& trimmed(s) == s.subrange(i, j)
            &&& forall|k: int| 0 <= k < i ==> white_space(#[trigger] s[k])
            &&& forall|k: int| j <= k < s.len() ==> white_space(#[trigger] s[k])
        };
    if i < j {
        assert(trimmed(s).first() == s[i]);
        assert(trimmed(s).last() == s[j - 1]);
    }
}

} // verus!
