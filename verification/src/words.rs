//! The word provider: holds a loaded corpus and yields a session's word
//! sequence, with optional injected numbers and lightweight, deliberately
//! non-grammatical punctuation.
use vstd::prelude::*;

verus! {

use crate::rand::Rng;
use crate::rand::is_sample;
use crate::rand::sample_witness;
use crate::rand::next_state;
use crate::rand::mix;
use crate::rand::spec_gen_mod_u64;
use crate::test::strings_view;
use crate::text::decimal_chars;
use crate::text::spec_decimal;
use crate::text::str_chars;
use crate::text::string_from_chars;
use crate::text::upper_of;
use crate::text::uppercase_char;

/// Mantissa bound under which a unit draw selects some punctuation.
pub const PUNCT_BAND: u64 = 1351079888211149;

/// Mantissa bound from which the punctuation is a sentence-ending mark.
pub const TERMINAL_BAND: u64 = 900719925474100;

/// Mantissa bound from which the punctuation is a pause mark.
pub const PAUSE_BAND: u64 = 450359962737050;

/// Mantissa bound from which the word is wrapped in a delimiter pair.
pub const DELIM_BAND: u64 = 225179981368525;

/// A sentence-ending mark.
pub open spec fn is_terminal_char(c: char) -> bool {
    c == '.' || c == '?' || c == '!'
}

/// A pause mark.
pub open spec fn is_pause_char(c: char) -> bool {
    c == ',' || c == ';' || c == ':'
}

/// A matching delimiter pair.
pub open spec fn is_delim_pair(l: char, r: char) -> bool {
    ||| (l == '"' && r == '"')
    ||| (l == '\'' && r == '\'')
    ||| (l == '(' && r == ')')
    ||| (l == '[' && r == ']')
    ||| (l == '{' && r == '}')
    ||| (l == '<' && r == '>')
}

/// One of the separator tokens that replace a word outright.
pub open spec fn is_separator(s: Seq<char>) -> bool {
    s == seq!['-'] || s == seq!['/'] || s == seq!['.', '.', '.']
}

/// The word with its first character uppercased, by the Unicode mapping.
pub open spec fn spec_upper_first(w: Seq<char>) -> Seq<char> {
    if w.len() > 0 {
        upper_of(w[0]) + w.drop_first()
    } else {
        w
    }
}

/// The sentence-ending mark a band draw picks.
pub open spec fn terminal_mark(i: u64) -> char {
    if i == 0 {
        '.'
    } else if i == 1 {
        '?'
    } else {
        '!'
    }
}

/// The pause mark a band draw picks.
pub open spec fn pause_mark(i: u64) -> char {
    if i == 0 {
        ','
    } else if i == 1 {
        ';'
    } else {
        ':'
    }
}

/// The opening delimiter a band draw picks.
pub open spec fn delim_open(i: u64) -> char {
    if i == 0 {
        '"'
    } else if i == 1 {
        '\''
    } else if i == 2 {
        '('
    } else if i == 3 {
        '['
    } else if i == 4 {
        '{'
    } else {
        '<'
    }
}

/// The closing delimiter a band draw picks.
pub open spec fn delim_close(i: u64) -> char {
    if i == 0 {
        '"'
    } else if i == 1 {
        '\''
    } else if i == 2 {
        ')'
    } else if i == 3 {
        ']'
    } else if i == 4 {
        '}'
    } else {
        '>'
    }
}

/// The separator token a band draw picks.
pub open spec fn separator_token(i: u64) -> Seq<char> {
    if i == 0 {
        seq!['-']
    } else if i == 1 {
        seq!['/']
    } else {
        seq!['.', '.', '.']
    }
}

/// One word through the punctuation pass: the base is uppercased when the
/// previous word ended a sentence; one mantissa draw picks the band, and
/// the band's own draw picks the mark, the delimiter pair or the
/// separator. Gives the word's final form, the generator state after, and
/// whether a sentence ended here.
pub open spec fn spec_punct_word(w: Seq<char>, s: u64, last_terminal: bool) -> (Seq<char>, u64, bool) {
    let base = if last_terminal {
        spec_upper_first(w)
    } else {
        w
    };
    let s1 = next_state(s);
    let m = mix(s1) >> 12;
    if m < PUNCT_BAND {
        if m >= TERMINAL_BAND {
            let p = spec_gen_mod_u64(s1, 3);
            (base.push(terminal_mark(p.1)), p.0, true)
        } else if m >= PAUSE_BAND {
            let p = spec_gen_mod_u64(s1, 3);
            (base.push(pause_mark(p.1)), p.0, false)
        } else if m >= DELIM_BAND {
            let p = spec_gen_mod_u64(s1, 6);
            (seq![delim_open(p.1)] + base + seq![delim_close(p.1)], p.0, false)
        } else {
            let p = spec_gen_mod_u64(s1, 3);
            (separator_token(p.1), p.0, false)
        }
    } else {
        (base, s1, false)
    }
}

/// The punctuation pass over the words from `i` on: the transformed
/// words, and the generator state after.
pub open spec fn spec_punctuate_from(ws: Seq<Seq<char>>, i: int, s: u64, lt: bool) -> (Seq<
    Seq<char>,
>, u64)
    decreases ws.len() - i,
{
    if i < 0 || i >= ws.len() {
        (Seq::empty(), s)
    } else {
        let step = spec_punct_word(ws[i], s, lt);
        let rest = spec_punctuate_from(ws, i + 1, step.1, step.2);
        (seq![step.0] + rest.0, rest.1)
    }
}

/// The whole punctuation pass over a word sequence from state `s`, with
/// no sentence pending at the start.
pub open spec fn spec_punctuate(ws: Seq<Seq<char>>, s: u64) -> (Seq<Seq<char>>, u64) {
    spec_punctuate_from(ws, 0, s, false)
}

/// How one pass of the punctuation injector may leave a word, relative to
/// its base form: unchanged, with a terminal or pause mark appended,
/// wrapped in a delimiter pair, or replaced by a separator token.
pub open spec fn punct_form(base: Seq<char>, out: Seq<char>) -> bool {
    ||| out == base
    ||| (exists|c: char| is_terminal_char(c) && out == base.push(c))
    ||| (exists|c: char| is_pause_char(c) && out == base.push(c))
    ||| (exists|l: char, r: char| is_delim_pair(l, r) && out == seq![l] + base + seq![r])
    ||| is_separator(out)
}

/// A base form a session word starts from: a corpus word, or, with
/// `numbers`, a byte's decimal.
pub open spec fn base_word(b: Seq<char>, corpus: Seq<String>, numbers: bool) -> bool {
    ||| (exists|j: int| 0 <= j < corpus.len() && b == (#[trigger] corpus[j])@)
    ||| (numbers && (exists|n: u8| b == #[trigger] spec_decimal(n)))
}

/// What a finished session word may be: a base form, with `punct`
/// possibly uppercased at a sentence start and decorated by one
/// punctuation form.
pub open spec fn session_word(w: Seq<char>, corpus: Seq<String>, punct: bool, numbers: bool) -> bool {
    if punct {
        exists|b: Seq<char>|
            #[trigger] base_word(b, corpus, numbers) && (punct_form(b, w) || punct_form(
                spec_upper_first(b),
                w,
            ))
    } else {
        base_word(w, corpus, numbers)
    }
}

/// A byte's decimal rendering.
pub open spec fn is_byte_decimal(w: Seq<char>) -> bool {
    exists|b: u8| w == #[trigger] spec_decimal(b)
}

/// `sel` names the replaced positions: pairwise distinct, in range, each
/// holding a byte's decimal rendering afterwards, with every other
/// position untouched.
pub open spec fn numbers_witness(sel: Seq<int>, before: Seq<String>, after: Seq<String>) -> bool {
    &&& forall|i: int| 0 <= i < sel.len() ==> 0 <= #[trigger] sel[i] < before.len()
    &&& forall|i: int, j: int| 0 <= i < j < sel.len() ==> sel[i] != sel[j]
    &&& forall|i: int| 0 <= i < sel.len() ==> is_byte_decimal((#[trigger] after[sel[i]])@)
    &&& forall|k: int|
        0 <= k < before.len() && (forall|i: int| 0 <= i < sel.len() ==> #[trigger] sel[i] != k)
            ==> after[k] == before[k]
}

/// `after` is `before` with exactly `count` distinct positions replaced
/// by decimal renderings of bytes.
pub open spec fn numbers_applied(before: Seq<String>, after: Seq<String>, count: nat) -> bool {
    &&& after.len() == before.len()
    &&& exists|sel: Seq<int>| sel.len() == count && #[trigger] numbers_witness(sel, before, after)
}

/// The stages of assembling a session's words: a reservoir sample of the
/// corpus; with `numbers`, one sixteenth of `amount` positions replaced
/// by byte decimals; with `punct`, each word decorated by one punctuation
/// form of its (possibly sentence-uppercased) base.
pub open spec fn choose_with_stages(
    picked: Seq<String>,
    mid: Seq<String>,
    out: Seq<String>,
    corpus: Seq<String>,
    amount: int,
    punct: bool,
    numbers: bool,
) -> bool {
    &&& is_sample(picked, corpus)
    &&& picked.len() == if corpus.len() <= amount {
        corpus.len()
    } else {
        amount as nat
    }
    &&& if numbers {
        numbers_applied(
            picked,
            mid,
            if picked.len() <= amount / 16 {
                picked.len()
            } else {
                (amount / 16) as nat
            },
        )
    } else {
        mid == picked
    }
    &&& if punct {
        out.len() == mid.len() && forall|i: int|
            0 <= i < mid.len() ==> punct_form(mid[i]@, (#[trigger] out[i])@) || punct_form(
                spec_upper_first(mid[i]@),
                out[i]@,
            )
    } else {
        out == mid
    }
}

/// The candidate words a session draws from; immutable once loaded.
pub struct WordSet {
    words: Vec<String>,
}

impl View for WordSet {
    type V = Seq<String>;

    closed spec fn view(&self) -> Seq<String> {
        self.words@
    }
}

impl WordSet {
    /// Wraps an already loaded list of trimmed words.
    pub fn new(words: Vec<String>) -> (r: WordSet)
        ensures
            r@ == words@,
    {
        WordSet { words }
    }

    /// Picks `amount` words at random without replacement; a shorter
    /// corpus is returned whole.
    pub fn pick(&self, rng: &mut Rng, amount: usize) -> (r: Vec<String>)
        ensures
            r@.len() == if self@.len() <= amount {
                self@.len()
            } else {
                amount as nat
            },
            self@.len() <= amount ==> r@ == self@,
            is_sample(r@, self@),
    {
        rng.choose_multiple(&self.words, amount)
    }

    /// Picks `amount` words and applies the requested features: with
    /// `numbers`, one sixteenth of `amount` distinct positions become a
    /// random byte's decimal; with `punct`, the punctuation pass runs
    /// over the sequence. The stages are witnessed exactly.
    pub fn choose_with(&self, rng: &mut Rng, amount: usize, punct: bool, numbers: bool) -> (r:
        Vec<String>)
        ensures
            r@.len() == if self@.len() <= amount {
                self@.len()
            } else {
                amount as nat
            },
            !punct && !numbers ==> is_sample(r@, self@),
            forall|i: int| 0 <= i < r@.len() ==> session_word(#[trigger] r@[i]@, self@, punct, numbers),
            exists|picked: Seq<String>, mid: Seq<String>|
                #[trigger] choose_with_stages(picked, mid, r@, self@, amount as int, punct, numbers),
    {
        let mut chosen: Vec<String> = self.pick(rng, amount);
        let ghost orig_len = chosen@.len();
        proof {
            let sel = choose|sel: Seq<int>| sample_witness(sel, chosen@, self@);
            assert(sample_witness(sel, chosen@, self@));
            assert forall|i: int| 0 <= i < chosen@.len() implies base_word(
                (#[trigger] chosen@[i])@,
                self@,
                numbers,
            ) by {
                assert(chosen@[i] == self@[sel[i]]);
                assert(chosen@[i]@ == (self@[sel[i]])@);
            }
        }
        let ghost picked = chosen@;
        let ghost mut sel: Seq<int> = Seq::empty();
        if numbers {
            let indices: Vec<usize> = rng.choose_multiple_indices(chosen.len(), amount / 16);
            let mut k: usize = 0;
            while k < indices.len()
                invariant
                    k <= indices@.len(),
                    chosen@.len() == orig_len == picked.len(),
                    forall|j: int| 0 <= j < indices@.len() ==> #[trigger] indices@[j] < chosen@.len(),
                    forall|j1: int, j2: int|
                        0 <= j1 < j2 < indices@.len() ==> indices@[j1] != indices@[j2],
                    forall|i: int|
                        0 <= i < chosen@.len() ==> base_word(
                            (#[trigger] chosen@[i])@,
                            self@,
                            true,
                        ),
                    sel.len() == k,
                    forall|j: int| 0 <= j < k ==> #[trigger] sel[j] == indices@[j],
                    forall|j: int|
                        0 <= j < k ==> is_byte_decimal((#[trigger] chosen@[indices@[j] as int])@),
                    forall|t: int|
                        0 <= t < picked.len() && (forall|j: int|
                            0 <= j < k ==> #[trigger] indices@[j] != t) ==> chosen@[t]
                            == picked[t],
                decreases indices@.len() - k,
            {
                let idx: usize = indices[k];
                let n: u8 = rng.u8(0, 255);
                let digits: Vec<char> = decimal_chars(n);
                chosen[idx] = string_from_chars(&digits);
                proof {
                    sel = sel.push(idx as int);
                    assert(chosen@[idx as int]@ == spec_decimal(n));
                    assert(is_byte_decimal(chosen@[idx as int]@));
                    assert(base_word(chosen@[idx as int]@, self@, true));
                }
                k = k + 1;
            }
            proof {
                assert forall|j: int| 0 <= j < sel.len() implies 0 <= #[trigger] sel[j]
                    < picked.len() by {
                    assert(sel[j] == indices@[j]);
                }
                assert forall|i1: int, j1: int| 0 <= i1 < j1 < sel.len() implies sel[i1]
                    != sel[j1] by {
                    assert(sel[i1] == indices@[i1]);
                    assert(sel[j1] == indices@[j1]);
                }
                assert forall|j: int| 0 <= j < sel.len() implies is_byte_decimal(
                    (#[trigger] chosen@[sel[j]])@,
                ) by {
                    assert(sel[j] == indices@[j]);
                    assert(is_byte_decimal(chosen@[indices@[j] as int]@));
                }
                assert forall|t: int|
                    0 <= t < picked.len() && (forall|i1: int|
                        0 <= i1 < sel.len() ==> #[trigger] sel[i1] != t) implies chosen@[t]
                    == picked[t] by {
                    assert forall|j: int| 0 <= j < indices@.len() implies #[trigger] indices@[j]
                        != t by {
                        assert(sel[j] == indices@[j]);
                        assert(sel[j] != t);
                    }
                }
                assert(numbers_witness(sel, picked, chosen@));
                assert(numbers_applied(
                    picked,
                    chosen@,
                    if picked.len() <= amount / 16 {
                        picked.len()
                    } else {
                        (amount / 16) as nat
                    },
                ));
            }
        }
        let ghost pre = chosen@;
        if punct {
            punctuate(&mut chosen, rng);
        }
        proof {
            assert forall|i: int| 0 <= i < chosen@.len() implies session_word(
                (#[trigger] chosen@[i])@,
                self@,
                punct,
                numbers,
            ) by {
                assert(base_word(pre[i]@, self@, numbers));
                if punct {
                    assert(punct_form(pre[i]@, chosen@[i]@) || punct_form(
                        spec_upper_first(pre[i]@),
                        chosen@[i]@,
                    ));
                }
            }
            assert(choose_with_stages(picked, pre, chosen@, self@, amount as int, punct, numbers));
        }
        chosen
    }
}

/// Runs the punctuation pass over a word sequence, in order, exactly as
/// `spec_punctuate` says: after a sentence-ending mark the next word
/// starts uppercase; each word then draws one unit mantissa and, by
/// descending band, gains a terminal mark, a pause mark, a delimiter
/// wrap, or is replaced by a separator token; most words stay untouched.
pub fn punctuate(words: &mut Vec<String>, rng: &mut Rng)
    ensures
        final(words)@.len() == old(words)@.len(),
        (strings_view(final(words)@), final(rng)@) == spec_punctuate(
            strings_view(old(words)@),
            old(rng)@,
        ),
        forall|i: int|
            0 <= i < old(words)@.len() ==> punct_form(
                old(words)@[i]@,
                (#[trigger] final(words)@[i])@,
            ) || punct_form(spec_upper_first(old(words)@[i]@), final(words)@[i]@),
{
    let ghost orig = words@;
    let ghost sv = strings_view(orig);
    let ghost s0 = rng@;
    let n: usize = words.len();
    let mut last_terminal: bool = false;
    let mut i: usize = 0;
    proof {
        assert(strings_view(words@).subrange(0, 0) =~= Seq::<Seq<char>>::empty());
        assert(spec_punctuate(sv, s0).0 =~= strings_view(words@).subrange(0, 0)
            + spec_punctuate_from(sv, 0, rng@, last_terminal).0);
    }
    while i < n
        invariant
            i <= n == words@.len(),
            words@.len() == orig.len(),
            sv == strings_view(orig),
            forall|k: int| i <= k < orig.len() ==> #[trigger] words@[k] == orig[k],
            forall|k: int|
                0 <= k < i ==> punct_form(orig[k]@, (#[trigger] words@[k])@) || punct_form(
                    spec_upper_first(orig[k]@),
                    words@[k]@,
                ),
            spec_punctuate(sv, s0).0 == strings_view(words@).subrange(0, i as int)
                + spec_punctuate_from(sv, i as int, rng@, last_terminal).0,
            spec_punctuate(sv, s0).1 == spec_punctuate_from(sv, i as int, rng@, last_terminal).1,
        decreases n - i,
    {
        let ghost s_entry = rng@;
        let ghost lt_entry = last_terminal;
        let ghost words_entry = words@;
        let mut cs: Vec<char> = str_chars(words[i].as_str());
        let ghost base0 = orig[i as int]@;
        let ghost mut base = base0;
        if last_terminal {
            if cs.len() > 0 {
                let first: char = cs[0];
                let mut ncs: Vec<char> = uppercase_char(first);
                proof {
                    assert(ncs@ =~= upper_of(cs@[0]) + cs@.subrange(1, 1));
                }
                let mut j: usize = 1;
                while j < cs.len()
                    invariant
                        1 <= j <= cs@.len(),
                        ncs@ == upper_of(cs@[0]) + cs@.subrange(1, j as int),
                    decreases cs@.len() - j,
                {
                    ncs.push(cs[j]);
                    proof {
                        assert(ncs@ =~= upper_of(cs@[0]) + cs@.subrange(1, j + 1));
                    }
                    j = j + 1;
                }
                proof {
                    assert(cs@.subrange(1, cs@.len() as int) =~= cs@.drop_first());
                }
                cs = ncs;
            }
            proof {
                base = spec_upper_first(base0);
                assert(cs@ =~= base);
            }
            last_terminal = false;
        }
        let ghost step = spec_punct_word(sv[i as int], s_entry, lt_entry);
        let m: u64 = rng.unit_mantissa();
        if m < PUNCT_BAND {
            if m >= TERMINAL_BAND {
                let t: usize = rng.usize(0, 2);
                let c: char = if t == 0 {
                    '.'
                } else if t == 1 {
                    '?'
                } else {
                    '!'
                };
                cs.push(c);
                last_terminal = true;
                proof {
                    assert(is_terminal_char(c) && cs@ == base.push(c));
                    assert(punct_form(base, cs@));
                    assert(c == terminal_mark(spec_gen_mod_u64(next_state(s_entry), 3).1));
                    assert(cs@ == step.0 && rng@ == step.1 && last_terminal == step.2);
                }
            } else if m >= PAUSE_BAND {
                let t: usize = rng.usize(0, 2);
                let c: char = if t == 0 {
                    ','
                } else if t == 1 {
                    ';'
                } else {
                    ':'
                };
                cs.push(c);
                proof {
                    assert(is_pause_char(c) && cs@ == base.push(c));
                    assert(punct_form(base, cs@));
                    assert(c == pause_mark(spec_gen_mod_u64(next_state(s_entry), 3).1));
                    assert(cs@ == step.0 && rng@ == step.1 && last_terminal == step.2);
                }
            } else if m >= DELIM_BAND {
                let t: usize = rng.usize(0, 5);
                let l: char = if t == 0 {
                    '"'
                } else if t == 1 {
                    '\''
                } else if t == 2 {
                    '('
                } else if t == 3 {
                    '['
                } else if t == 4 {
                    '{'
                } else {
                    '<'
                };
                let r: char = if t == 0 {
                    '"'
                } else if t == 1 {
                    '\''
                } else if t == 2 {
                    ')'
                } else if t == 3 {
                    ']'
                } else if t == 4 {
                    '}'
                } else {
                    '>'
                };
                let mut nv: Vec<char> = Vec::new();
                nv.push(l);
                nv.append(&mut cs);
                nv.push(r);
                cs = nv;
                proof {
                    assert(is_delim_pair(l, r) && cs@ =~= seq![l] + base + seq![r]);
                    assert(punct_form(base, cs@));
                    assert(l == delim_open(spec_gen_mod_u64(next_state(s_entry), 6).1) && r
                        == delim_close(spec_gen_mod_u64(next_state(s_entry), 6).1));
                    assert(cs@ == step.0 && rng@ == step.1 && last_terminal == step.2);
                }
            } else {
                let t: usize = rng.usize(0, 2);
                let mut nv: Vec<char> = Vec::new();
                if t == 0 {
                    nv.push('-');
                } else if t == 1 {
                    nv.push('/');
                } else {
                    nv.push('.');
                    nv.push('.');
                    nv.push('.');
                }
                cs = nv;
                proof {
                    if t == 0 {
                        assert(cs@ =~= seq!['-']);
                    } else if t == 1 {
                        assert(cs@ =~= seq!['/']);
                    } else {
                        assert(cs@ =~= seq!['.', '.', '.']);
                    }
                    assert(punct_form(base, cs@));
                    assert(cs@ == separator_token(spec_gen_mod_u64(next_state(s_entry), 3).1));
                    assert(cs@ == step.0 && rng@ == step.1 && last_terminal == step.2);
                }
            }
        } else {
            proof {
                assert(cs@ == step.0 && rng@ == step.1 && last_terminal == step.2);
            }
        }
        words[i] = string_from_chars(&cs);
        proof {
            assert(punct_form(base0, words@[i as int]@) || punct_form(
                spec_upper_first(base0),
                words@[i as int]@,
            ));
            assert(strings_view(words@).subrange(0, i as int) =~= strings_view(
                words_entry,
            ).subrange(0, i as int));
            assert(strings_view(words@).subrange(0, i + 1) =~= strings_view(
                words_entry,
            ).subrange(0, i as int) + seq![step.0]);
            assert(spec_punctuate(sv, s0).0 =~= strings_view(words@).subrange(0, i + 1)
                + spec_punctuate_from(sv, i + 1, rng@, last_terminal).0);
        }
        i = i + 1;
    }
    proof {
        assert(strings_view(words@).subrange(0, n as int) + Seq::<Seq<char>>::empty()
            =~= strings_view(words@));
    }
}

/// The error of loading a word set: the path that failed and the reason.
#[derive(Debug)]
pub enum WordSetError {
    Open(String, String),
}

} // verus!
