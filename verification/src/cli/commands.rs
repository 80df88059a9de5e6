//! Shell commands: a pattern of words, where an angle-bracketed word
//! stands for an argument, matched against the space-split tokens of
//! an input line.

use vstd::prelude::*;
use vstd::string::StrSliceExecFns;
use vstd::string::StringExecFns;

verus! {

/// An input line split at every single space, as `str::split(" ")`
/// does: consecutive spaces yield empty tokens, and the result always
/// holds at least one token.
pub open spec fn split_spec(s: Seq<char>) -> Seq<Seq<char>>
    decreases s.len(),
{
    if s.len() == 0 {
        seq![Seq::<char>::empty()]
    } else if s[0] == ' ' {
        seq![Seq::<char>::empty()] + split_spec(s.skip(1))
    } else {
        let rest = split_spec(s.skip(1));
        seq![seq![s[0]] + rest[0]] + rest.skip(1)
    }
}

/// Splitting yields at least one token.
pub proof fn lemma_split_nonempty(s: Seq<char>)
    ensures
        split_spec(s).len() >= 1,
    decreases s.len(),
{
    if s.len() != 0 {
        lemma_split_nonempty(s.skip(1));
    }
}

/// Splitting a string whose first space sits at `p`: the first token
/// is everything before `p`, the rest is the split of everything
/// after it; a string without spaces is one single token.
pub proof fn lemma_split_at_first_space(s: Seq<char>, p: int)
    requires
        0 <= p <= s.len(),
        forall|j: int| 0 <= j < p ==> s[j] != ' ',
        p < s.len() ==> s[p] == ' ',
    ensures
        p < s.len() ==> split_spec(s) == seq![s.take(p)] + split_spec(s.skip(p + 1)),
        p == s.len() ==> split_spec(s) == seq![s],
    decreases p,
{
    lemma_split_nonempty(s);
    if s.len() == 0 {
        assert(split_spec(s) =~~= seq![s]);
    } else if p == 0 {
        if p < s.len() {
            assert(split_spec(s) =~~= seq![s.take(0)] + split_spec(s.skip(1)));
        }
    } else {
        let t = s.skip(1);
        lemma_split_nonempty(t);
        lemma_split_at_first_space(t, p - 1);
        let rest = split_spec(t);
        assert(split_spec(s) == seq![seq![s[0]] + rest[0]] + rest.skip(1));
        if p < s.len() {
            // rest == seq![t.take(p - 1)] + split_spec(t.skip(p))
            assert(rest == seq![t.take(p - 1)] + split_spec(t.skip(p)));
            assert(rest[0] == t.take(p - 1));
            assert(seq![s[0]] + rest[0] =~= s.take(p));
            assert(rest.skip(1) =~= split_spec(t.skip(p)));
            assert(t.skip(p) =~= s.skip(p + 1));
            assert(split_spec(s) =~= seq![s.take(p)] + split_spec(s.skip(p + 1)));
        } else {
            assert(rest == seq![t]);
            assert(rest[0] == t);
            assert(seq![s[0]] + t =~= s);
            assert(rest.skip(1) =~= Seq::<Seq<char>>::empty());
            assert(split_spec(s) =~~= seq![s]);
        }
    }
}

/// The token views of a word list.
pub open spec fn words_view(v: Seq<String>) -> Seq<Seq<char>> {
    v.map_values(|w: String| w@)
}

/// Splits an input line at every single space.
pub fn split_tokens(s: &String) -> (r: Vec<String>)
    ensures
        words_view(r@) == split_spec(s@),
{
    let ss = s.as_str();
    let n = ss.unicode_len();
    let mut tokens: Vec<String> = Vec::new();
    let mut start: usize = 0;
    let mut i: usize = 0;
    proof {
        assert(s@.skip(0) =~= s@);
        assert(split_spec(s@) =~~= words_view(tokens@) + split_spec(s@.skip(0)));
    }
    while i < n
        invariant
            start <= i <= n,
            n == s@.len(),
            ss@ == s@,
            forall|j: int| start <= j < i ==> s@[j] != ' ',
            split_spec(s@) == words_view(tokens@) + split_spec(s@.skip(start as int)),
        decreases n - i,
    {
        if ss.get_char(i) == ' ' {
            let tok = ss.substring_char(start, i).to_owned();
            let ghost toks0 = tokens@;
            tokens.push(tok);
            proof {
                let tail = s@.skip(start as int);
                lemma_split_at_first_space(tail, i - start);
                assert(tail.take(i - start) =~= s@.subrange(start as int, i as int));
                assert(tail.skip(i - start + 1) =~= s@.skip(i + 1));
                assert(words_view(tokens@) =~= words_view(toks0) + seq![
                    s@.subrange(start as int, i as int),
                ]);
                assert(split_spec(s@) =~= words_view(tokens@) + split_spec(s@.skip(i + 1)));
            }
            start = i + 1;
        }
        i = i + 1;
    }
    let tok = ss.substring_char(start, n).to_owned();
    let ghost toks0 = tokens@;
    tokens.push(tok);
    proof {
        let tail = s@.skip(start as int);
        lemma_split_at_first_space(tail, n - start);
        assert(tail =~= s@.subrange(start as int, n as int));
        assert(words_view(tokens@) =~= words_view(toks0) + seq![
            s@.subrange(start as int, n as int),
        ]);
        assert(split_spec(s@) =~= words_view(tokens@));
    }
    tokens
}

/// An angle-bracketed pattern word: it stands for an argument and
/// matches any token.
pub open spec fn is_placeholder(w: Seq<char>) -> bool {
    w.len() > 0 && w[0] == '<' && w[w.len() - 1] == '>'
}

/// Whether the tokens of an input line fit a pattern: one token per
/// pattern word, each matching its word exactly unless the word is a
/// placeholder.
pub open spec fn matches_spec(pattern: Seq<Seq<char>>, cmd: Seq<char>) -> bool {
    let toks = split_spec(cmd);
    &&& toks.len() == pattern.len()
    &&& forall|i: int| 0 <= i < pattern.len() ==> (is_placeholder(#[trigger] pattern[i])
        || toks[i] == pattern[i])
}

/// The arguments a matching line binds, in pattern order: each
/// placeholder's name (the word without its angle brackets) paired
/// with the token in its position.
pub open spec fn extract_spec(pattern: Seq<Seq<char>>, toks: Seq<Seq<char>>) -> Seq<
    (Seq<char>, Seq<char>),
>
    decreases pattern.len(),
{
    if pattern.len() == 0 {
        Seq::<(Seq<char>, Seq<char>)>::empty()
    } else {
        extract_spec(pattern.drop_last(), toks.drop_last()) + (if is_placeholder(
            pattern.last(),
        ) {
            seq![
                (pattern.last().subrange(1, pattern.last().len() - 1), toks[pattern.len() - 1]),
            ]
        } else {
            Seq::<(Seq<char>, Seq<char>)>::empty()
        })
    }
}

/// One shell command: the words of its pattern and a line of help
/// text.  What the command does when it matches is the caller's
/// affair.
pub struct Command {
    pub pattern: Vec<String>,
    pub description: String,
}

impl Command {
    pub fn new(pattern: Vec<String>, description: String) -> (c: Command)
        ensures
            c.pattern@ == pattern@,
            c.description@ == description@,
    {
        Command { pattern, description }
    }

    /// Whether the input line fits this command's pattern.
    pub fn matches_pattern(&self, cmd: &String) -> (r: bool)
        ensures
            r == matches_spec(words_view(self.pattern@), cmd@),
    {
        let tokens = split_tokens(cmd);
        let n = self.pattern.len();
        if tokens.len() != n {
            return false;
        }
        let mut i: usize = 0;
        while i < n
            invariant
                i <= n,
                n == self.pattern@.len(),
                words_view(tokens@) == split_spec(cmd@),
                tokens@.len() == n,
                forall|j: int| 0 <= j < i ==> (is_placeholder(
                    #[trigger] words_view(self.pattern@)[j],
                ) || split_spec(cmd@)[j] == words_view(self.pattern@)[j]),
            decreases n - i,
        {
            if !word_is_placeholder(&self.pattern[i]) && !(tokens[i] == self.pattern[i]) {
                proof {
                    assert(words_view(tokens@)[i as int] == tokens@[i as int]@);
                    assert(words_view(self.pattern@)[i as int] == self.pattern@[i as int]@);
                }
                return false;
            }
            proof {
                assert(words_view(tokens@)[i as int] == tokens@[i as int]@);
                assert(words_view(self.pattern@)[i as int] == self.pattern@[i as int]@);
            }
            i = i + 1;
        }
        true
    }

    /// The arguments the line binds: each placeholder's name with the
    /// token standing in its position.  The line must fit the pattern
    /// token for token.
    pub fn extract_args(&self, cmd: &String) -> (r: Vec<(String, String)>)
        requires
            split_spec(cmd@).len() == self.pattern@.len(),
        ensures
            r@.map_values(|p: (String, String)| (p.0@, p.1@)) == extract_spec(
                words_view(self.pattern@),
                split_spec(cmd@),
            ),
    {
        let tokens = split_tokens(cmd);
        let n = self.pattern.len();
        let mut out: Vec<(String, String)> = Vec::new();
        let ghost pat = words_view(self.pattern@);
        let ghost toks = split_spec(cmd@);
        let mut i: usize = 0;
        while i < n
            invariant
                i <= n,
                n == self.pattern@.len(),
                pat == words_view(self.pattern@),
                toks == split_spec(cmd@),
                words_view(tokens@) == toks,
                toks.len() == n,
                out@.map_values(|p: (String, String)| (p.0@, p.1@)) == extract_spec(
                    pat.take(i as int),
                    toks.take(i as int),
                ),
            decreases n - i,
        {
            let ghost out0 = out@;
            proof {
                assert(pat[i as int] == self.pattern@[i as int]@);
                assert(toks[i as int] == tokens@[i as int]@);
            }
            if word_is_placeholder(&self.pattern[i]) {
                let w = &self.pattern[i];
                let wn = w.as_str().unicode_len();
                let name = w.as_str().substring_char(1, wn - 1).to_owned();
                let tok_copy = tokens[i].clone();
                out.push((name, tok_copy));
            }
            i = i + 1;
            proof {
                assert(pat.take(i as int).drop_last() =~= pat.take(i - 1));
                assert(toks.take(i as int).drop_last() =~= toks.take(i - 1));
                assert(pat.take(i as int).last() == pat[i - 1]);
                assert(toks.take(i as int)[i - 1] == toks[i - 1]);
                assert(out@.map_values(|p: (String, String)| (p.0@, p.1@)) =~= extract_spec(
                    pat.take(i as int),
                    toks.take(i as int),
                ));
            }
        }
        proof {
            assert(pat.take(n as int) =~= pat);
            assert(toks.take(n as int) =~= toks);
        }
        out
    }
}

/// Whether the word is angle-bracketed.
pub fn word_is_placeholder(w: &String) -> (r: bool)
    ensures
        r == is_placeholder(w@),
{
    let ws = w.as_str();
    let n = ws.unicode_len();
    if n == 0 {
        return false;
    }
    ws.get_char(0) == '<' && ws.get_char(n - 1) == '>'
}

} // verus!
