//! The text-side helpers of the vector store: chunking documents for
//! indexing and tokenizing text for embedding. The store itself embeds
//! with floating-point weights and lives with the outer shell; these
//! helpers are pure text.

use vstd::prelude::*;
use crate::text::{lower_of, alnum_of, lowercase, chars_of, string_from_chars,
    char_is_alphanumeric};

verus! {

/// A character that continues a token.
pub open spec fn word_char(c: char) -> bool {
    alnum_of(c) || c == '_'
}

/// End of the token run starting at `i`.
pub open spec fn token_end(s: Seq<char>, i: int) -> int
    decreases s.len() - i when 0 <= i <= s.len()
{
    if i < s.len() && word_char(s[i]) {
        token_end(s, i + 1)
    } else {
        i
    }
}

/// The tokens of a text from position `i` on: maximal word-character runs
/// of at least two characters.
pub open spec fn tokens_from(s: Seq<char>, i: int) -> Seq<Seq<char>>
    decreases s.len() - i when 0 <= i <= s.len()
{
    if i >= s.len() {
        Seq::<Seq<char>>::empty()
    } else if !word_char(s[i]) {
        tokens_from(s, i + 1)
    } else {
        let e = if token_end(s, i) > i {
            token_end(s, i)
        } else {
            i + 1
        };
        let e2 = if e <= s.len() {
            e
        } else {
            s.len() as int
        };
        let t = s.subrange(i, e2);
        (if t.len() >= 2 {
            seq![t]
        } else {
            Seq::<Seq<char>>::empty()
        }) + tokens_from(s, e2)
    }
}

/// Tokenize text into lowercase words, keeping only tokens of at least
/// two characters.
#[verifier::loop_isolation(false)]
pub fn tokenize(text: &str) -> (r: Vec<String>)
    ensures
        Seq::new(r@.len(), |i: int| r@[i]@) == tokens_from(lower_of(text@), 0),
{
    let lowered = lowercase(text);
    let lv = chars_of(lowered.as_str());
    let ghost s = lower_of(text@);
    let mut out: Vec<String> = Vec::new();
    let mut pos: usize = 0;
    proof {
        assert(Seq::new(out@.len(), |i: int| out@[i]@) =~= Seq::<Seq<char>>::empty());
        assert(Seq::<Seq<char>>::empty() + tokens_from(s, 0) =~= tokens_from(s, 0));
    }
    while pos < lv.len()
        invariant
            pos <= lv@.len(),
            lv@ == s,
            tokens_from(s, 0) == Seq::new(out@.len(), |i: int| out@[i]@) + tokens_from(
                s,
                pos as int,
            ),
        decreases lv@.len() - pos,
    {
        let c = lv[pos];
        let cw = char_is_alphanumeric(c) || c == '_';
        if !cw {
            pos += 1;
        } else {
            let mut e: usize = pos;
            while e < lv.len() && (char_is_alphanumeric(lv[e]) || lv[e] == '_')
                invariant
                    pos <= e <= lv@.len(),
                    token_end(s, pos as int) == token_end(s, e as int),
                decreases lv@.len() - e,
            {
                e += 1;
            }
            proof {
                assert(token_end(s, pos as int) == e as int);
            }
            let t = crate::json::copy_range(&lv, pos, e);
            let ghost prev = Seq::new(out@.len(), |i: int| out@[i]@);
            if t.len() >= 2 {
                out.push(string_from_chars(&t));
                proof {
                    assert(Seq::new(out@.len(), |i: int| out@[i]@) =~= prev.push(t@));
                    assert(prev + (seq![t@] + tokens_from(s, e as int)) =~= prev.push(t@)
                        + tokens_from(s, e as int));
                }
            } else {
                proof {
                    assert(prev + (Seq::<Seq<char>>::empty() + tokens_from(s, e as int)) =~= prev
                        + tokens_from(s, e as int));
                }
            }
            pos = e;
        }
    }
    proof {
        assert(tokens_from(s, s.len() as int) =~= Seq::<Seq<char>>::empty());
        assert(Seq::new(out@.len(), |i: int| out@[i]@) + Seq::<Seq<char>>::empty() =~= Seq::new(
            out@.len(),
            |i: int| out@[i]@,
        ));
    }
    out
}

/// Chunk text into smaller segments for indexing: lines are packed into
/// chunks of at most `max_chunk_size` characters. Every returned chunk is
/// non-empty, and a chunk longer than the limit holds a single long line
/// (it carries no newline).
#[verifier::loop_isolation(false)]
pub fn chunk_text(text: &str, max_chunk_size: usize) -> (r: Vec<String>)
    ensures
        forall|i: int|
            0 <= i < r@.len() ==> (#[trigger] r@[i])@.len() > 0 && (r@[i]@.len()
                <= max_chunk_size || (forall|j: int|
                0 <= j < r@[i]@.len() ==> r@[i]@[j] != '\n')),
{
    let tv = chars_of(text);
    let mut chunks: Vec<String> = Vec::new();
    let mut cur: Vec<char> = Vec::new();
    let mut pos: usize = 0;
    while pos < tv.len()
        invariant
            pos <= tv@.len(),
            cur@.len() <= max_chunk_size || (forall|j: int|
                0 <= j < cur@.len() ==> cur@[j] != '\n'),
            forall|i: int|
                0 <= i < chunks@.len() ==> (#[trigger] chunks@[i])@.len() > 0 && (chunks@[i]@.len()
                    <= max_chunk_size || (forall|j: int|
                    0 <= j < chunks@[i]@.len() ==> chunks@[i]@[j] != '\n')),
        decreases tv@.len() - pos,
    {
        // take the next line
        let mut e: usize = pos;
        while e < tv.len() && tv[e] != '\n'
            invariant
                pos <= e <= tv@.len(),
                forall|j: int| pos <= j < e ==> tv@[j] != '\n',
            decreases tv@.len() - e,
        {
            e += 1;
        }
        let mut line = crate::json::copy_range(&tv, pos, e);
        if line.len() > 0 && line[line.len() - 1] == '\r' {
            line.pop();
        }
        proof {
            assert(forall|j: int| 0 <= j < line@.len() ==> line@[j] != '\n');
        }
        if (cur.len() as u128) + (line.len() as u128) + 1 > (max_chunk_size as u128) && cur.len() > 0 {
            chunks.push(string_from_chars(&cur));
            cur = Vec::new();
        }
        if cur.len() > 0 {
            cur.push('\n');
            let ghost mid = cur@;
            let mut li: usize = 0;
            while li < line.len()
                invariant
                    li <= line@.len(),
                    cur@ == mid + line@.subrange(0, li as int),
                decreases line@.len() - li,
            {
                cur.push(line[li]);
                proof {
                    assert(mid + line@.subrange(0, (li + 1) as int) =~= (mid + line@.subrange(
                        0,
                        li as int,
                    )).push(line@[li as int]));
                }
                li += 1;
            }
            proof {
                assert(line@.subrange(0, line@.len() as int) =~= line@);
                assert(cur@.len() == mid.len() + line@.len());
                assert(cur@.len() <= max_chunk_size);
            }
        } else {
            cur = line;
        }
        pos = if e < tv.len() {
            e + 1
        } else {
            e
        };
    }
    if cur.len() > 0 {
        chunks.push(string_from_chars(&cur));
    }
    chunks
}

} // verus!
