//! Completion: what a partly typed line could continue as, judged
//! against the command patterns of the current mode.

use vstd::prelude::*;
use vstd::string::StrSliceExecFns;
use crate::cli::commands::{Command, split_spec, split_tokens, words_view, lemma_split_nonempty};

verus! {

/// What one pattern offers for a partly typed line: its word in the
/// position of the line's last token, when every earlier token equals
/// its word exactly and the last token starts that word.
pub open spec fn candidate_of(pattern: Seq<Seq<char>>, toks: Seq<Seq<char>>) -> Option<Seq<char>> {
    if toks.len() <= pattern.len() && (forall|i: int|
        0 <= i < toks.len() - 1 ==> #[trigger] toks[i] == pattern[i]) && toks.last().is_prefix_of(
        pattern[toks.len() - 1],
    ) {
        Some(pattern[toks.len() - 1])
    } else {
        None
    }
}

/// The completion candidates for a line: the words the commands offer
/// for its last token, each once.
pub fn completion_candidates(cmds: &Vec<Command>, line: &String) -> (r: Vec<String>)
    ensures
        words_view(r@).no_duplicates(),
        forall|c: int| 0 <= c < cmds@.len() ==> match candidate_of(
            #[trigger] words_view(cmds@[c].pattern@),
            split_spec(line@),
        ) {
            Some(w) => words_view(r@).contains(w),
            None => true,
        },
        forall|w: Seq<char>| #[trigger] words_view(r@).contains(w) ==> exists|c: int|
            0 <= c < cmds@.len() && candidate_of(words_view(cmds@[c].pattern@), split_spec(line@))
                == Some(w),
{
    let toks = split_tokens(line);
    proof {
        lemma_split_nonempty(line@);
    }
    let tn = toks.len();
    let mut cands: Vec<String> = Vec::new();
    let n = cmds.len();
    let mut c: usize = 0;
    while c < n
        invariant
            c <= n,
            n == cmds@.len(),
            tn == toks@.len(),
            tn >= 1,
            words_view(toks@) == split_spec(line@),
            words_view(cands@).no_duplicates(),
            forall|cc: int| 0 <= cc < c ==> match candidate_of(
                #[trigger] words_view(cmds@[cc].pattern@),
                split_spec(line@),
            ) {
                Some(w) => words_view(cands@).contains(w),
                None => true,
            },
            forall|w: Seq<char>| #[trigger] words_view(cands@).contains(w) ==> exists|cc: int|
                0 <= cc < c && candidate_of(words_view(cmds@[cc].pattern@), split_spec(line@))
                    == Some(w),
        decreases n - c,
    {
        let ghost pat = words_view(cmds@[c as int].pattern@);
        let ghost stoks = split_spec(line@);
        let pn = cmds[c].pattern.len();
        let mut offered: Option<String> = None;
        if tn <= pn {
            let mut prefix_ok = true;
            let mut i: usize = 0;
            while i < tn - 1
                invariant
                    i <= tn - 1,
                    tn >= 1,
                    tn == toks@.len(),
                    tn <= pn,
                    c < cmds@.len(),
                    pn == cmds@[c as int].pattern@.len(),
                    pat == words_view(cmds@[c as int].pattern@),
                    stoks == split_spec(line@),
                    words_view(toks@) == stoks,
                    prefix_ok ==> forall|j: int| 0 <= j < i ==> #[trigger] stoks[j] == pat[j],
                    !prefix_ok ==> !(forall|j: int|
                        0 <= j < stoks.len() - 1 ==> #[trigger] stoks[j] == pat[j]),
                decreases tn - 1 - i,
            {
                if !(toks[i] == cmds[c].pattern[i]) {
                    proof {
                        assert(stoks[i as int] == toks@[i as int]@);
                        assert(pat[i as int] == cmds@[c as int].pattern@[i as int]@);
                    }
                    prefix_ok = false;
                }
                proof {
                    assert(stoks[i as int] == toks@[i as int]@);
                    assert(pat[i as int] == cmds@[c as int].pattern@[i as int]@);
                }
                i = i + 1;
            }
            if prefix_ok {
                let last = &toks[tn - 1];
                let word = &cmds[c].pattern[tn - 1];
                if str_is_prefix(last, word) {
                    proof {
                        assert(stoks.last() == toks@[tn - 1]@);
                        assert(pat[tn - 1] == cmds@[c as int].pattern@[tn - 1]@);
                    }
                    offered = Some(word.clone());
                } else {
                    proof {
                        assert(stoks.last() == toks@[tn - 1]@);
                        assert(pat[tn - 1] == cmds@[c as int].pattern@[tn - 1]@);
                        assert(candidate_of(pat, stoks) is None);
                    }
                }
            } else {
                proof {
                    assert(candidate_of(pat, stoks) is None);
                }
            }
        } else {
            proof {
                assert(candidate_of(pat, stoks) is None);
            }
        }
        match offered {
            Some(w) => {
                proof {
                    assert(candidate_of(pat, stoks) == Some(w@));
                }
                if !contains_string(&cands, &w) {
                    let ghost cands0 = cands@;
                    cands.push(w);
                    proof {
                        assert(words_view(cands@) =~= words_view(cands0).push(
                            words_view(cands@).last(),
                        ));
                        lemma_words_push_no_duplicates(cands0, cands@.last());
                        assert forall|x: Seq<char>| #[trigger] words_view(cands@).contains(
                            x,
                        ) implies (words_view(cands0).contains(x) || x == cands@.last()@) by {
                            vstd::seq_lib::lemma_seq_contains_after_push(
                                words_view(cands0),
                                cands@.last()@,
                                x,
                            );
                        }
                        assert forall|x: Seq<char>|
                            words_view(cands0).contains(x) || x == cands@.last()@
                            implies #[trigger] words_view(cands@).contains(x) by {
                            vstd::seq_lib::lemma_seq_contains_after_push(
                                words_view(cands0),
                                cands@.last()@,
                                x,
                            );
                        }
                    }
                }
            },
            None => {},
        }
        c = c + 1;
    }
    cands
}

/// Appending a word the list does not hold keeps it duplicate-free at
/// the view level.
proof fn lemma_words_push_no_duplicates(v: Seq<String>, w: String)
    requires
        words_view(v).no_duplicates(),
        !words_view(v).contains(w@),
    ensures
        words_view(v.push(w)).no_duplicates(),
{
    let a = words_view(v);
    let t = words_view(v.push(w));
    assert(t =~= a.push(w@));
    assert forall|i: int, j: int| 0 <= i < t.len() && 0 <= j < t.len() && i != j implies t[i]
        != t[j] by {
        if i < a.len() && j < a.len() {
        } else if i < a.len() {
            assert(a[i] == t[i]);
        } else {
            assert(j < a.len() && a[j] == t[j]);
        }
    }
}

/// Whether every character of `a` starts `b`.
pub fn str_is_prefix(a: &String, b: &String) -> (r: bool)
    ensures
        r == a@.is_prefix_of(b@),
{
    let asr = a.as_str();
    let bsr = b.as_str();
    let na = asr.unicode_len();
    let nb = bsr.unicode_len();
    if na > nb {
        assert(!a@.is_prefix_of(b@));
        return false;
    }
    let mut i: usize = 0;
    while i < na
        invariant
            i <= na,
            na == a@.len(),
            nb == b@.len(),
            na <= nb,
            asr@ == a@,
            bsr@ == b@,
            forall|j: int| 0 <= j < i ==> a@[j] == b@[j],
        decreases na - i,
    {
        if asr.get_char(i) != bsr.get_char(i) {
            proof {
                assert(!(a@ =~= b@.subrange(0, a@.len() as int)));
            }
            return false;
        }
        i = i + 1;
    }
    proof {
        assert(a@ =~= b@.subrange(0, a@.len() as int));
    }
    true
}

/// A list of words holds this one.
pub fn contains_string(v: &Vec<String>, w: &String) -> (r: bool)
    ensures
        r == words_view(v@).contains(w@),
{
    let n = v.len();
    let mut i: usize = 0;
    while i < n
        invariant
            i <= n,
            n == v@.len(),
            forall|j: int| 0 <= j < i ==> #[trigger] words_view(v@)[j] != w@,
        decreases n - i,
    {
        if v[i] == *w {
            proof {
                assert(words_view(v@)[i as int] == v@[i as int]@);
            }
            return true;
        }
        proof {
            assert(words_view(v@)[i as int] == v@[i as int]@);
        }
        i = i + 1;
    }
    false
}

} // verus!
