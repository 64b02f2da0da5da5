//! Splitting player input into words.
use vstd::prelude::*;
use crate::util::{
    all_ascii, ascii_lower, ascii_lowered, ascii_small, char_is_alphanumeric, char_is_whitespace,
    is_alphanumeric, is_whitespace, lemma_ascii_lower, lowercase, owned, push_char, to_lowercase,
};

verus! {

/// A validated single word string of text to be processed by the parser.
#[derive(Debug, PartialEq, Eq)]
pub struct Token {
    pub text: String,
}

impl Clone for Token {
    fn clone(&self) -> (r: Self)
        ensures
            r.text@ == self.text@,
    {
        Token { text: self.text.clone() }
    }
}

/// The texts of a list of tokens.
pub open spec fn token_texts(ts: Seq<Token>) -> Seq<Seq<char>> {
    ts.map_values(|t: Token| t.text@)
}

/// `words` with `current` appended when it is not empty.
pub open spec fn flush(words: Seq<Seq<char>>, current: Seq<char>) -> Seq<Seq<char>> {
    if current.len() > 0 {
        words.push(current)
    } else {
        words
    }
}

/// One character of the scan: whitespace ends the current word, a comma ends it and
/// is a word of its own, a letter or digit extends it, anything else is dropped.
pub open spec fn scan_step(st: (Seq<Seq<char>>, Seq<char>), c: char) -> (Seq<Seq<char>>, Seq<char>) {
    if is_whitespace(c) {
        (flush(st.0, st.1), Seq::empty())
    } else if c == ',' {
        (flush(st.0, st.1).push(","@), Seq::empty())
    } else if is_alphanumeric(c) {
        (st.0, st.1.push(c))
    } else {
        st
    }
}

/// The finished words and the word in progress after scanning `s`.
pub open spec fn scan(s: Seq<char>) -> (Seq<Seq<char>>, Seq<char>)
    decreases s.len(),
{
    if s.len() == 0 {
        (Seq::empty(), Seq::empty())
    } else {
        scan_step(scan(s.drop_last()), s.last())
    }
}

/// The words of a text.
pub open spec fn words_of(s: Seq<char>) -> Seq<Seq<char>> {
    flush(scan(s).0, scan(s).1)
}

/// The token texts that `tokenize` gives for an input.
pub open spec fn tokenized(input: Seq<char>) -> Seq<Seq<char>> {
    words_of(lowercase(input))
}

/// A character that a word keeps: a letter or digit that is neither whitespace nor a
/// comma.
pub open spec fn word_char(c: char) -> bool {
    is_alphanumeric(c) && !is_whitespace(c) && c != ','
}

/// A word made of letters and digits, or a lone comma.
pub open spec fn is_word(w: Seq<char>) -> bool {
    w == ","@ || (w.len() > 0 && forall|i: int| 0 <= i < w.len() ==> word_char(#[trigger] w[i]))
}

/// Every word that a scan produces is a comma or a non-empty run of letters and digits.
pub proof fn lemma_scan_words(s: Seq<char>)
    ensures
        forall|i: int| 0 <= i < scan(s).0.len() ==> is_word(#[trigger] scan(s).0[i]),
        forall|i: int| 0 <= i < scan(s).1.len() ==> word_char(#[trigger] scan(s).1[i]),
        forall|i: int| 0 <= i < words_of(s).len() ==> is_word(#[trigger] words_of(s)[i]),
    decreases s.len(),
{
    if s.len() > 0 {
        lemma_scan_words(s.drop_last());
        let st = scan(s.drop_last());
        let c = s.last();
        assert(is_word(","@)) by {
            reveal_strlit(",");
        }
        if !is_whitespace(c) && c != ',' && is_alphanumeric(c) {
            assert forall|i: int| 0 <= i < scan(s).1.len() implies word_char(#[trigger] scan(s).1[i]) by {
                if i < st.1.len() {
                    assert(scan(s).1[i] == st.1[i]);
                }
            }
        }
        if st.1.len() > 0 {
            assert(is_word(st.1));
        }
    }
    let st = scan(s);
    if st.1.len() > 0 {
        assert(is_word(st.1));
    }
}

/// The words `ws`, each followed by a space.
pub open spec fn spaced(ws: Seq<Seq<char>>) -> Seq<char>
    decreases ws.len(),
{
    if ws.len() == 0 {
        Seq::empty()
    } else {
        spaced(ws.drop_last()) + ws.last() + seq![' ']
    }
}

/// The scan state after scanning `t` from the state `st`.
pub open spec fn scan_from(st: (Seq<Seq<char>>, Seq<char>), t: Seq<char>) -> (Seq<Seq<char>>, Seq<char>)
    decreases t.len(),
{
    if t.len() == 0 {
        st
    } else {
        scan_step(scan_from(st, t.drop_last()), t.last())
    }
}

/// Scanning two texts one after the other scans the second from where the first left.
proof fn lemma_scan_concat(a: Seq<char>, b: Seq<char>)
    ensures
        scan(a + b) == scan_from(scan(a), b),
    decreases b.len(),
{
    if b.len() == 0 {
        assert(a + b =~= a);
    } else {
        lemma_scan_concat(a, b.drop_last());
        assert((a + b).drop_last() =~= a + b.drop_last());
        assert((a + b).last() == b.last());
    }
}

/// Scanning letters and digits extends the word in progress by them.
proof fn lemma_scan_plain(words: Seq<Seq<char>>, current: Seq<char>, w: Seq<char>)
    requires
        forall|i: int| 0 <= i < w.len() ==> word_char(#[trigger] w[i]),
    ensures
        scan_from((words, current), w) == (words, current + w),
    decreases w.len(),
{
    if w.len() == 0 {
        assert(current + w =~= current);
    } else {
        lemma_scan_plain(words, current, w.drop_last());
        assert(word_char(w[w.len() - 1]));
        assert(current + w.drop_last() + seq![w.last()] =~= current + w);
    }
}

/// Scanning the words `ws`, each followed by a space, gives back exactly those words.
proof fn lemma_scan_spaced(ws: Seq<Seq<char>>)
    requires
        forall|i: int| 0 <= i < ws.len() ==> is_word(#[trigger] ws[i]),
    ensures
        scan(spaced(ws)) == (ws, Seq::<char>::empty()),
    decreases ws.len(),
{
    reveal_strlit(",");
    if ws.len() == 0 {
        assert(spaced(ws) =~= Seq::<char>::empty());
        assert(ws =~= Seq::<Seq<char>>::empty());
    } else {
        let rest = ws.drop_last();
        let w = ws.last();
        assert forall|i: int| 0 <= i < rest.len() implies is_word(#[trigger] rest[i]) by {
            assert(rest[i] == ws[i]);
        }
        lemma_scan_spaced(rest);
        assert(is_word(ws[ws.len() - 1]));
        lemma_scan_concat(spaced(rest), w);
        lemma_scan_concat(spaced(rest) + w, seq![' ']);
        assert(spaced(ws) == spaced(rest) + w + seq![' ']);
        let sp = seq![' '];
        assert(sp.drop_last() =~= Seq::<char>::empty());
        assert(sp.last() == ' ');
        assert(is_whitespace(' '));
        let st0 = (rest, Seq::<char>::empty());
        let mid = scan_from(st0, w);
        assert(scan(spaced(rest) + w) == mid);
        assert(scan_from(mid, sp.drop_last()) == mid);
        assert(scan_from(mid, sp) == scan_step(mid, ' '));
        assert(scan(spaced(ws)) == (flush(mid.0, mid.1), Seq::<char>::empty()));
        if w == ","@ {
            assert(w.drop_last() =~= Seq::<char>::empty());
            assert(w.last() == ',');
            assert(scan_from(st0, w.drop_last()) == st0);
            assert(!is_whitespace(','));
            assert(scan_from(st0, w) == scan_step(st0, ','));
            assert(flush(rest, Seq::<char>::empty()) == rest);
            assert(mid == (rest.push(","@), Seq::<char>::empty()));
        } else {
            lemma_scan_plain(rest, Seq::<char>::empty(), w);
            assert(Seq::<char>::empty() + w =~= w);
            assert(mid == (rest, w));
        }
        assert(rest.push(w) =~= ws);
    }
}

/// Splitting text into words is idempotent: the words of a text, each followed by a
/// space, split into those same words again.
pub proof fn lemma_words_idempotent(s: Seq<char>)
    ensures
        words_of(spaced(words_of(s))) == words_of(s),
{
    lemma_scan_words(s);
    lemma_scan_spaced(words_of(s));
}

/// Every character of the words of a scan, and of the word in progress, is one of
/// the scanned characters or the comma.
proof fn lemma_scan_chars(s: Seq<char>, p: spec_fn(char) -> bool)
    requires
        p(','),
        forall|i: int| 0 <= i < s.len() ==> p(#[trigger] s[i]),
    ensures
        forall|i: int, j: int| 0 <= i < scan(s).0.len() && 0 <= j < scan(s).0[i].len() ==> p(#[trigger] scan(s).0[i][j]),
        forall|j: int| 0 <= j < scan(s).1.len() ==> p(#[trigger] scan(s).1[j]),
    decreases s.len(),
{
    reveal_strlit(",");
    if s.len() > 0 {
        let t = s.drop_last();
        assert forall|i: int| 0 <= i < t.len() implies p(#[trigger] t[i]) by {
            assert(t[i] == s[i]);
        }
        lemma_scan_chars(t, p);
        let st = scan(t);
        let c = s.last();
        assert(p(s[s.len() - 1]));
        let words = scan(s).0;
        assert forall|i: int, j: int| 0 <= i < words.len() && 0 <= j < words[i].len() implies p(#[trigger] words[i][j]) by {
            if i < st.0.len() {
                assert(words[i] == st.0[i]);
            } else if i == st.0.len() && st.1.len() > 0 && (is_whitespace(c) || c == ',') {
                assert(words[i] == st.1);
            } else {
                assert(words[i] == ","@);
            }
        }
        assert forall|j: int| 0 <= j < scan(s).1.len() implies p(#[trigger] scan(s).1[j]) by {
            if j < st.1.len() {
                assert(scan(s).1[j] == st.1[j]);
            }
        }
    }
}

/// Every character of the words of a text is one of its characters or the comma.
proof fn lemma_words_chars(s: Seq<char>, p: spec_fn(char) -> bool)
    requires
        p(','),
        forall|i: int| 0 <= i < s.len() ==> p(#[trigger] s[i]),
    ensures
        forall|i: int, j: int|
            0 <= i < words_of(s).len() && 0 <= j < words_of(s)[i].len() ==> p(#[trigger] words_of(s)[i][j]),
{
    lemma_scan_chars(s, p);
    let st = scan(s);
    assert forall|i: int, j: int| 0 <= i < words_of(s).len() && 0 <= j < words_of(s)[i].len() implies p(
        #[trigger] words_of(s)[i][j],
    ) by {
        if i < st.0.len() {
            assert(words_of(s)[i] == st.0[i]);
        } else {
            assert(words_of(s)[i] == st.1);
        }
    }
}

/// The words `ws` spaced out are made of their characters and spaces.
proof fn lemma_spaced_chars(ws: Seq<Seq<char>>, p: spec_fn(char) -> bool)
    requires
        p(' '),
        forall|i: int, j: int| 0 <= i < ws.len() && 0 <= j < ws[i].len() ==> p(#[trigger] ws[i][j]),
    ensures
        forall|k: int| 0 <= k < spaced(ws).len() ==> p(#[trigger] spaced(ws)[k]),
    decreases ws.len(),
{
    if ws.len() > 0 {
        let rest = ws.drop_last();
        let w = ws.last();
        assert forall|i: int, j: int| 0 <= i < rest.len() && 0 <= j < rest[i].len() implies p(#[trigger] rest[i][j]) by {
            assert(rest[i] == ws[i]);
        }
        lemma_spaced_chars(rest, p);
        let a = spaced(rest);
        assert forall|k: int| 0 <= k < spaced(ws).len() implies p(#[trigger] spaced(ws)[k]) by {
            if k < a.len() {
                assert(spaced(ws)[k] == a[k]);
            } else if k < a.len() + w.len() {
                assert(spaced(ws)[k] == w[k - a.len()]);
                assert(p(ws[ws.len() - 1][k - a.len()]));
            } else {
                assert(spaced(ws)[k] == ' ');
            }
        }
    }
}

/// On ASCII input the tokens are the words of the text lower-cased letter by letter.
/// Each of them is a comma or a non-empty run of letters and digits with no capital
/// letter, so lower-casing it changes nothing; and tokenizing the tokens again, each
/// followed by a space, gives the same tokens.
pub proof fn lemma_ascii_tokens(s: Seq<char>)
    requires
        all_ascii(s),
    ensures
        forall|i: int| 0 <= i < words_of(ascii_lowered(s)).len() ==> is_word(#[trigger] words_of(ascii_lowered(s))[i]),
        forall|i: int|
            0 <= i < words_of(ascii_lowered(s)).len() ==> ascii_lowered(#[trigger] words_of(ascii_lowered(s))[i])
                == words_of(ascii_lowered(s))[i],
        all_ascii(spaced(words_of(ascii_lowered(s)))),
        words_of(ascii_lowered(spaced(words_of(ascii_lowered(s))))) == words_of(ascii_lowered(s)),
{
    let p = |c: char| ascii_small(c);
    let l = ascii_lowered(s);
    let ws = words_of(l);
    assert forall|i: int| 0 <= i < l.len() implies p(#[trigger] l[i]) by {
        lemma_ascii_lower(s[i]);
    }
    lemma_words_chars(l, p);
    lemma_scan_words(l);
    assert forall|i: int| 0 <= i < ws.len() implies ascii_lowered(#[trigger] ws[i]) == ws[i] by {
        assert forall|j: int| 0 <= j < ws[i].len() implies #[trigger] ascii_lower(ws[i][j]) == ws[i][j] by {
            assert(p(ws[i][j]));
            lemma_ascii_lower(ws[i][j]);
        }
        assert(ascii_lowered(ws[i]) =~= ws[i]);
    }
    lemma_spaced_chars(ws, p);
    let t = spaced(ws);
    assert forall|k: int| 0 <= k < t.len() implies #[trigger] ascii_lower(t[k]) == t[k] by {
        assert(p(t[k]));
        lemma_ascii_lower(t[k]);
    }
    assert(ascii_lowered(t) =~= t);
    lemma_scan_spaced(ws);
}

/// Prepares a string for parsing: lower-cases it, splits it at whitespace, makes
/// each comma a token of its own and drops every other character that is neither
/// a letter nor a digit.
pub fn tokenize(input: &str) -> (r: Vec<Token>)
    ensures
        token_texts(r@) == tokenized(input@),
        forall|i: int| 0 <= i < r@.len() ==> is_word(#[trigger] r@[i].text@),
        all_ascii(input@) ==> token_texts(r@) == words_of(ascii_lowered(input@)),
{
    let lower = to_lowercase(input);
    let ghost full = lower@;
    let mut tokens: Vec<Token> = Vec::new();
    let mut current = String::new();
    for c in it: lower.as_str().chars()
        invariant
            it.seq() == full,
            (token_texts(tokens@), current@) == scan(full.take(it.index() as int)),
    {
        let ghost before = full.take(it.index() as int);
        proof {
            assert(full.take(it.index() + 1).drop_last() == before);
            assert(full.take(it.index() + 1).last() == c);
        }
        if char_is_whitespace(c) {
            if !current.as_str().is_empty() {
                let word = current;
                tokens.push(Token { text: word });
                current = String::new();
            }
        } else if c == ',' {
            if !current.as_str().is_empty() {
                let word = current;
                tokens.push(Token { text: word });
                current = String::new();
            }
            tokens.push(Token { text: owned(",") });
        } else if char_is_alphanumeric(c) {
            push_char(&mut current, c);
        }
        proof {
            assert(token_texts(tokens@) == scan(full.take(it.index() + 1)).0);
        }
    }
    if !current.as_str().is_empty() {
        tokens.push(Token { text: current });
    }
    proof {
        assert(full.take(full.len() as int) == full);
        lemma_scan_words(full);
        if all_ascii(input@) {
            assert(full == ascii_lowered(input@));
        }
        assert forall|i: int| 0 <= i < tokens@.len() implies is_word(#[trigger] tokens@[i].text@) by {
            assert(token_texts(tokens@)[i] == tokens@[i].text@);
            assert(words_of(full)[i] == token_texts(tokens@)[i]);
        }
    }
    tokens
}

} // verus!
