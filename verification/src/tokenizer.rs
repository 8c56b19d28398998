//! Whitespace tokenization with case folding: the text-preparation step of
//! the offline inference engine, an external collaborator of the kernel.

use vstd::prelude::*;
use vstd::string::StrSliceExecFns;
use crate::text::{is_space, is_space_char, lower_of, lowercase};

verus! {

/// The role an offline model plays.
#[derive(Clone, Copy, Debug)]
pub enum ModelType {
    LanguageProcessing,
    VisionDetection,
    AudioProcessing,
    NumericReasoning,
    ActionPlanning,
}

/// One step of the split: whitespace closes the word in progress, any
/// other character extends it.
pub open spec fn split_step(
    acc: (Seq<Seq<char>>, Seq<char>),
    c: char,
) -> (Seq<Seq<char>>, Seq<char>) {
    if is_space(c) {
        if acc.1.len() > 0 {
            (acc.0.push(acc.1), Seq::empty())
        } else {
            acc
        }
    } else {
        (acc.0, acc.1.push(c))
    }
}

/// The words closed so far and the word in progress after reading `s`.
pub open spec fn split_state(s: Seq<char>) -> (Seq<Seq<char>>, Seq<char>)
    decreases s.len(),
{
    if s.len() == 0 {
        (Seq::empty(), Seq::empty())
    } else {
        split_step(split_state(s.drop_last()), s.last())
    }
}

/// The maximal whitespace-free runs of `s`, in order.
pub open spec fn spec_words(s: Seq<char>) -> Seq<Seq<char>> {
    let st = split_state(s);
    if st.1.len() > 0 {
        st.0.push(st.1)
    } else {
        st.0
    }
}

/// Splits on whitespace and case-folds each word.
pub struct SimpleTokenizer;

impl SimpleTokenizer {
    /// A tokenizer; it carries no state.
    pub fn new() -> (r: SimpleTokenizer)
    {
        SimpleTokenizer
    }

    /// The whitespace-separated words of `text`, in order, each case-folded.
    pub fn tokenize(&self, text: &str) -> (r: Vec<String>)
        ensures
            r@.map_values(|t: String| t@) == spec_words(text@).map_values(
                |w: Seq<char>| lower_of(w),
            ),
    {
        let n = text.unicode_len();
        let mut out: Vec<String> = Vec::new();
        let mut start: usize = 0;
        let mut in_word: bool = false;
        let mut i: usize = 0;
        while i < n
            invariant
                n == text@.len(),
                i <= n,
                in_word ==> start < i,
                out@.map_values(|t: String| t@) == split_state(
                    text@.subrange(0, i as int),
                ).0.map_values(|w: Seq<char>| lower_of(w)),
                in_word <==> split_state(text@.subrange(0, i as int)).1.len() > 0,
                in_word ==> split_state(text@.subrange(0, i as int)).1 == text@.subrange(
                    start as int,
                    i as int,
                ),
            decreases n - i,
        {
            let ghost pre = text@.subrange(0, i as int);
            let ghost st = split_state(pre);
            let c = text.get_char(i);
            proof {
                assert(text@.subrange(0, i + 1) =~= pre.push(text@[i as int]));
                assert(split_state(pre.push(text@[i as int])) == split_step(st, text@[i as int]))
                    by {
                    assert(pre.push(text@[i as int]).drop_last() =~= pre);
                }
            }
            if is_space_char(c) {
                if in_word {
                    let word = text.substring_char(start, i);
                    let folded = lowercase(word);
                    let ghost outv0 = out@;
                    out.push(folded);
                    proof {
                        assert(out@.map_values(|t: String| t@) =~= outv0.map_values(
                            |t: String| t@,
                        ).push(lower_of(st.1)));
                        assert(split_step(st, text@[i as int]).0 =~= st.0.push(st.1));
                        assert(split_step(st, text@[i as int]).0.map_values(
                            |w: Seq<char>| lower_of(w),
                        ) =~= st.0.map_values(|w: Seq<char>| lower_of(w)).push(lower_of(st.1)));
                    }
                    in_word = false;
                }
            } else {
                if !in_word {
                    start = i;
                    in_word = true;
                }
                proof {
                    assert(split_step(st, text@[i as int]).1 =~= text@.subrange(
                        start as int,
                        i + 1,
                    ));
                }
            }
            i += 1;
        }
        proof {
            assert(text@.subrange(0, n as int) =~= text@);
        }
        if in_word {
            let word = text.substring_char(start, n);
            let folded = lowercase(word);
            let ghost outv0 = out@;
            out.push(folded);
            proof {
                let st = split_state(text@);
                assert(out@.map_values(|t: String| t@) =~= outv0.map_values(|t: String| t@).push(
                    lower_of(st.1),
                ));
                assert(spec_words(text@) == st.0.push(st.1));
                assert(spec_words(text@).map_values(|w: Seq<char>| lower_of(w)) =~= st.0.map_values(
                    |w: Seq<char>| lower_of(w),
                ).push(lower_of(st.1)));
            }
        }
        out
    }
}

} // verus!
