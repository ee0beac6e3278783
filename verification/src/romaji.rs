//! Romaji to kana conversion.
//!
//! The conversion table is the Mozc romaji table ([`crate::mozc_table`]). The
//! table alone cannot handle inputs such as "kanna" (かんな), so the handling of
//! `n` and of doubled consonants (促音) is kept here as explicit rules.

use vstd::prelude::*;
use crate::error::NukoError;
use crate::mozc_table::{mozc_spec_table, mozc_table, spec_get, MozcTable, TableView, EntryView};
use crate::text::{
    ascii_lower, char_string, chars_of, lemma_ascii_lower_idempotent, push_all, spec_ascii_lower,
    string_of_range, vec_range,
};

verus! {

/// Whether `c` is one of the romaji vowels `a i u e o`.
pub open spec fn spec_is_vowel(c: char) -> bool {
    c == 'a' || c == 'i' || c == 'u' || c == 'e' || c == 'o'
}

fn is_vowel(c: char) -> (r: bool)
    ensures
        r == spec_is_vowel(c),
{
    c == 'a' || c == 'i' || c == 'u' || c == 'e' || c == 'o'
}

/// The longest prefix of `buf` of length at most `len` that the table knows.
pub open spec fn spec_longest_prefix(t: TableView, buf: Seq<char>, len: nat) -> Option<nat>
    decreases len,
{
    if len == 0 {
        None
    } else if spec_get(t, buf.take(len as int)) is Some {
        Some(len)
    } else {
        spec_longest_prefix(t, buf, (len - 1) as nat)
    }
}

/// A converter state: the pending romaji and whether the last output was the
/// `ん` of an `nn`.
pub type RomajiState = (Seq<char>, bool);

/// One step of the table conversion of the buffer: the new state and, when
/// something was converted, the output.
pub open spec fn spec_try_convert(t: TableView, s: RomajiState) -> (RomajiState, Option<Seq<char>>) {
    let buf = s.0;
    let nn = s.1;
    if buf == seq!['n'] {
        // a lone `n` waits for the next character
        (s, None)
    } else if buf == seq!['n', '\''] && spec_get(t, buf) is Some {
        ((Seq::empty(), false), Some(spec_get(t, buf).unwrap().0))
    } else if buf.len() >= 2 && buf[0] == 'n' && buf[1] != 'y' && !spec_is_vowel(buf[1]) {
        // `n` before a consonant (or before another `n`) is `ん`
        ((buf.skip(1), buf[1] == 'n'), Some(seq!['ん']))
    } else {
        match spec_longest_prefix(t, buf, buf.len()) {
            Some(len) => {
                let e: EntryView = spec_get(t, buf.take(len as int)).unwrap();
                let rest = buf.skip(len as int);
                let next = match e.1 {
                    Some(ns) => ns + rest,
                    None => rest,
                };
                ((next, false), Some(e.0))
            },
            None => if buf.len() > 4 {
                // a buffer that cannot match anything gives up its first character
                ((buf.skip(1), nn), Some(seq![buf[0]]))
            } else {
                (s, None)
            },
        }
    }
}

/// Feeding one character: the new state and the kana output (possibly empty).
pub open spec fn spec_input(t: TableView, s: RomajiState, c: char) -> (RomajiState, Seq<char>) {
    let b = s.0.push(spec_ascii_lower(c));
    let last = b[b.len() - 1];
    if b.len() >= 2 && b[b.len() - 2] == last && !spec_is_vowel(last) && last != 'n' {
        // a doubled consonant is a small っ; one consonant stays
        ((seq![last], false), seq!['っ'])
    } else {
        let r = spec_try_convert(t, (b, s.1));
        (r.0, match r.1 {
            Some(k) => k,
            None => Seq::empty(),
        })
    }
}

/// Flushing: whatever is pending is output and the buffer is emptied.
pub open spec fn spec_flush(t: TableView, s: RomajiState) -> (RomajiState, Seq<char>) {
    let buf = s.0;
    if buf.len() == 0 {
        ((Seq::empty(), false), Seq::empty())
    } else if buf == seq!['n'] && s.1 {
        // the `n` left by an `nn` has already been output as `ん`
        ((Seq::empty(), false), Seq::empty())
    } else if buf == seq!['n'] {
        ((Seq::empty(), false), seq!['ん'])
    } else {
        match spec_get(t, buf) {
            Some(e) => ((Seq::empty(), false), e.0),
            None => ((Seq::empty(), false), buf),
        }
    }
}

/// Feeding every character of `s` in order: the final state and the output.
pub open spec fn spec_feed(t: TableView, st: RomajiState, s: Seq<char>) -> (RomajiState, Seq<char>)
    decreases s.len(),
{
    if s.len() == 0 {
        (st, Seq::empty())
    } else {
        let a = spec_feed(t, st, s.drop_last());
        let b = spec_input(t, a.0, s.last());
        (b.0, a.1 + b.1)
    }
}

/// Converting a whole string: feeding it, then flushing.
pub open spec fn spec_convert(t: TableView, st: RomajiState, s: Seq<char>) -> (RomajiState, Seq<char>) {
    let a = spec_feed(t, st, s);
    let b = spec_flush(t, a.0);
    (b.0, a.1 + b.1)
}

/// Romaji to kana converter.
#[derive(Debug)]
pub struct RomajiConverter {
    /// Pending romaji.
    buffer: String,
    /// Whether the last output was the `ん` of an `nn`; a remaining `n` is then
    /// not output again by `flush`.
    last_was_nn_emit: bool,
    table: crate::mozc_table::MozcTable,
}

impl RomajiConverter {
    #[verifier::type_invariant]
    spec fn inv(self) -> bool {
        self.table@ == mozc_spec_table()
    }

    /// The state `(pending romaji, last output was the ん of nn)`.
    pub closed spec fn state(&self) -> RomajiState {
        (self.buffer@, self.last_was_nn_emit)
    }

    /// A converter with an empty buffer.
    pub fn new() -> (r: Self)
        ensures
            r.state() == (Seq::<char>::empty(), false),
    {
        RomajiConverter { buffer: String::new(), last_was_nn_emit: false, table: mozc_table() }
    }

    /// Adds one character of input and returns the kana converted by it
    /// (an empty string when nothing could be converted yet).
    pub fn input(&mut self, c: char) -> (r: String)
        ensures
            (final(self).state(), r@) == spec_input(mozc_spec_table(), old(self).state(), c),
    {
        proof {
            use_type_invariant(&*self);
        }
        let lower = ascii_lower(c);
        let mut pushed = self.buffer.clone();
        pushed.push(lower);
        self.buffer = pushed;
        let chars = chars_of(self.buffer.as_str());
        let len = chars.len();
        if len >= 2 && chars[len - 2] == chars[len - 1] && !is_vowel(chars[len - 1]) && chars[len - 1] != 'n' {
            self.buffer = char_string(chars[len - 1]);
            self.last_was_nn_emit = false;
            return char_string('っ');
        }
        match self.try_convert() {
            Some(kana) => kana,
            None => String::new(),
        }
    }

    fn try_convert(&mut self) -> (r: Option<String>)
        ensures
            ((final(self).state(), match r {
                Some(k) => Some(k@),
                None => None::<Seq<char>>,
            })) == spec_try_convert(mozc_spec_table(), old(self).state()),
    {
        proof {
            use_type_invariant(&*self);
        }
        let ghost t = mozc_spec_table();
        let chars = chars_of(self.buffer.as_str());
        let n = chars.len();
        if n == 1 && chars[0] == 'n' {
            assert(chars@ =~= seq!['n']);
            return None;
        }
        if n == 2 && chars[0] == 'n' && chars[1] == '\'' {
            assert(chars@ =~= seq!['n', '\'']);
            let found = match self.table.get_chars(&chars) {
                Some(entry) => Some(entry.kana.clone()),
                None => None,
            };
            if let Some(kana) = found {
                self.buffer = String::new();
                self.last_was_nn_emit = false;
                return Some(kana);
            }
        }
        proof {
            assert(chars@ != seq!['n'] ==> !(n == 1 && chars@[0] == 'n'));
            if n == 1 && chars@[0] == 'n' {
                assert(chars@ =~= seq!['n']);
            }
        }
        if n >= 2 && chars[0] == 'n' {
            let second = chars[1];
            if second != 'y' && !is_vowel(second) {
                proof {
                    if chars@ == seq!['n', '\''] {
                        assert(spec_get(t, chars@) is None);
                    }
                }
                self.buffer = string_of_range(&chars, 1, n);
                self.last_was_nn_emit = second == 'n';
                proof {
                    assert(chars@.subrange(1, n as int) =~= chars@.skip(1));
                }
                return Some(char_string('ん'));
            }
        }
        proof {
            if chars@ == seq!['n'] {
                assert(chars@.len() == 1 && chars@[0] == 'n');
            }
            if chars@ == seq!['n', '\''] {
                assert(n == 2 && chars@[0] == 'n' && chars@[1] == '\'');
            }
            assert(chars@ != seq!['n']);
            assert(!(chars@ == seq!['n', '\''] && spec_get(t, chars@) is Some));
            assert(!(chars@.len() >= 2 && chars@[0] == 'n' && chars@[1] != 'y' && !spec_is_vowel(chars@[1])));
        }
        let mut len = n;
        while len >= 1
            invariant
                len <= n == chars@.len(),
                chars@ == old(self).buffer@,
                self.buffer@ == old(self).buffer@,
                self.last_was_nn_emit == old(self).last_was_nn_emit,
                self.table@ == t,
                t == mozc_spec_table(),
                chars@ != seq!['n'],
                !(chars@ == seq!['n', '\''] && spec_get(t, chars@) is Some),
                !(chars@.len() >= 2 && chars@[0] == 'n' && chars@[1] != 'y' && !spec_is_vowel(chars@[1])),
                spec_longest_prefix(t, chars@, n as nat) == spec_longest_prefix(t, chars@, len as nat),
            decreases len,
        {
            let prefix = vec_range(&chars, 0, len);
            proof {
                assert(prefix@ =~= chars@.take(len as int));
            }
            let got = self.table.get_chars(&prefix);
            if let Some(entry) = got {
                let ghost e = entry@;
                let kana = entry.kana.clone();
                let mut nb = match &entry.next_state {
                    Some(ns) => ns.clone(),
                    None => String::new(),
                };
                let ghost head = nb@;
                let rest = string_of_range(&chars, len, n);
                push_all(&mut nb, &rest);
                proof {
                    assert(spec_longest_prefix(t, chars@, len as nat) == Some(len as nat));
                    assert(e == spec_get(t, chars@.take(len as int)).unwrap());
                    assert(chars@.subrange(len as int, n as int) =~= chars@.skip(len as int));
                    match e.1 {
                        Some(ns) => assert(head == ns),
                        None => {
                            assert(head =~= Seq::<char>::empty());
                            assert(nb@ =~= chars@.skip(len as int));
                        },
                    }
                }
                self.buffer = nb;
                self.last_was_nn_emit = false;
                return Some(kana);
            }
            len = len - 1;
        }
        if n > 4 {
            self.buffer = string_of_range(&chars, 1, n);
            proof {
                assert(chars@.subrange(1, n as int) =~= chars@.skip(1));
            }
            return Some(char_string(chars[0]));
        }
        None
    }

    /// Outputs whatever is pending and empties the buffer (used when input ends).
    pub fn flush(&mut self) -> (r: String)
        ensures
            (final(self).state(), r@) == spec_flush(mozc_spec_table(), old(self).state()),
            final(self).state() == (Seq::<char>::empty(), false),
    {
        proof {
            use_type_invariant(&*self);
        }
        let chars = chars_of(self.buffer.as_str());
        if chars.len() == 0 {
            self.last_was_nn_emit = false;
            proof {
                assert(self.buffer@ =~= Seq::<char>::empty());
            }
            return String::new();
        }
        let single_n = chars.len() == 1 && chars[0] == 'n';
        proof {
            if single_n {
                assert(chars@ =~= seq!['n']);
            }
        }
        if single_n && self.last_was_nn_emit {
            self.buffer = String::new();
            self.last_was_nn_emit = false;
            return String::new();
        }
        if single_n {
            self.buffer = String::new();
            self.last_was_nn_emit = false;
            return char_string('ん');
        }
        let found = match self.table.get_chars(&chars) {
            Some(entry) => Some(entry.kana.clone()),
            None => None,
        };
        match found {
            Some(kana) => {
                self.buffer = String::new();
                self.last_was_nn_emit = false;
                kana
            },
            None => {
                let result = self.buffer.clone();
                self.buffer = String::new();
                self.last_was_nn_emit = false;
                result
            },
        }
    }

    /// Empties the buffer.
    pub fn clear(&mut self)
        ensures
            final(self).state() == (Seq::<char>::empty(), false),
    {
        proof {
            use_type_invariant(&*self);
        }
        self.buffer = String::new();
        self.last_was_nn_emit = false;
    }

    /// The pending romaji.
    pub fn buffer(&self) -> (r: &str)
        ensures
            r@ == self.state().0,
    {
        self.buffer.as_str()
    }

    /// Converts a whole string: every character is input in order, then the
    /// buffer is flushed. This never fails.
    pub fn convert(&mut self, input: &str) -> (r: Result<String, NukoError>)
        ensures
            r is Ok,
            (final(self).state(), r.unwrap()@) == spec_convert(mozc_spec_table(), old(self).state(), input@),
            final(self).state() == (Seq::<char>::empty(), false),
    {
        let chars = chars_of(input);
        let mut result = String::new();
        let mut i: usize = 0;
        while i < chars.len()
            invariant
                i <= chars.len(),
                chars@ == input@,
                (self.state(), result@) == spec_feed(mozc_spec_table(), old(self).state(), chars@.take(i as int)),
            decreases chars.len() - i,
        {
            proof {
                assert(chars@.take(i as int + 1).drop_last() =~= chars@.take(i as int));
            }
            let out = self.input(chars[i]);
            push_all(&mut result, &out);
            i = i + 1;
        }
        proof {
            assert(chars@.take(chars@.len() as int) =~= chars@);
        }
        let tail = self.flush();
        push_all(&mut result, &tail);
        Ok(result)
    }

    /// A copy of this converter.
    pub fn duplicate(&self) -> (r: Self)
        ensures
            r.state() == self.state(),
    {
        RomajiConverter { buffer: self.buffer.clone(), last_was_nn_emit: self.last_was_nn_emit, table: mozc_table() }
    }
}

/// Lower-casing the input first does not change one step of the conversion.
pub proof fn lemma_input_ignores_ascii_case(t: TableView, s: RomajiState, c: char)
    ensures
        spec_input(t, s, spec_ascii_lower(c)) == spec_input(t, s, c),
{
    lemma_ascii_lower_idempotent(c);
}

/// Law: converting a string gives the same kana and final state as converting
/// its ASCII lower-case form (upper-case romaji is accepted as lower case).
pub proof fn lemma_convert_ignores_ascii_case(t: TableView, st: RomajiState, s: Seq<char>)
    ensures
        spec_convert(t, st, s.map_values(|c: char| spec_ascii_lower(c))) == spec_convert(t, st, s),
{
    lemma_feed_ignores_ascii_case(t, st, s);
}

proof fn lemma_feed_ignores_ascii_case(t: TableView, st: RomajiState, s: Seq<char>)
    ensures
        spec_feed(t, st, s.map_values(|c: char| spec_ascii_lower(c))) == spec_feed(t, st, s),
    decreases s.len(),
{
    let m = s.map_values(|c: char| spec_ascii_lower(c));
    if s.len() > 0 {
        assert(m.drop_last() =~= s.drop_last().map_values(|c: char| spec_ascii_lower(c)));
        lemma_feed_ignores_ascii_case(t, st, s.drop_last());
        let a = spec_feed(t, st, s.drop_last());
        lemma_input_ignores_ascii_case(t, a.0, s.last());
    }
}

/// Law: after a flush (and so after `convert`) nothing is pending.
pub proof fn lemma_flush_empties(t: TableView, s: RomajiState)
    ensures
        spec_flush(t, s).0 == (Seq::<char>::empty(), false),
{
}

/// Law: a doubled consonant other than `n` gives `っ` and keeps one consonant
/// in the buffer, whatever the table holds.
pub proof fn lemma_doubled_consonant(t: TableView, s: RomajiState, c: char)
    requires
        s.0.len() >= 1,
        s.0.last() == spec_ascii_lower(c),
        !spec_is_vowel(spec_ascii_lower(c)),
        spec_ascii_lower(c) != 'n',
    ensures
        spec_input(t, s, c) == ((seq![spec_ascii_lower(c)], false), seq!['っ']),
{
}

/// Law: the `n` that remains after an `nn` produced `ん` is not output again.
pub proof fn lemma_nn_not_doubled(t: TableView)
    ensures
        spec_flush(t, (seq!['n'], true)).1 == Seq::<char>::empty(),
        spec_flush(t, (seq!['n'], false)).1 == seq!['ん'],
{
}

/// Law: `n` followed by a consonant other than `y` gives `ん` and keeps the consonant.
pub proof fn lemma_n_before_consonant(t: TableView, c: char)
    requires
        spec_ascii_lower(c) != 'y',
        spec_ascii_lower(c) != 'n',
        spec_ascii_lower(c) != '\'',
        !spec_is_vowel(spec_ascii_lower(c)),
    ensures
        spec_input(t, (seq!['n'], false), c) == ((seq![spec_ascii_lower(c)], false), seq!['ん']),
{
    let b = seq!['n'].push(spec_ascii_lower(c));
    assert(b.skip(1) =~= seq![spec_ascii_lower(c)]);
    assert(b != seq!['n']);
    assert(b != seq!['n', '\''] ) by {
        if b == seq!['n', '\''] {
            assert(b[1] == '\'');
        }
    }
}


/// Law: flushing loses no input. Pending romaji that is neither a lone `n`
/// nor a key of the table is output exactly as it was typed, and the buffer
/// is emptied.
pub proof fn lemma_flush_keeps_unconverted(t: TableView, b: Seq<char>, nn: bool)
    requires
        b.len() > 0,
        b != seq!['n'],
        spec_get(t, b) is None,
    ensures
        spec_flush(t, (b, nn)) == ((Seq::<char>::empty(), false), b),
{
}

/// Law: converting a string ends with whatever romaji could not be
/// converted: when the romaji left pending after feeding `s` is neither a lone
/// `n` nor a key of the table, the result is the fed kana followed by that
/// romaji, unchanged.
pub proof fn lemma_convert_keeps_unconverted(t: TableView, st: RomajiState, s: Seq<char>)
    requires
        spec_feed(t, st, s).0.0.len() > 0,
        spec_feed(t, st, s).0.0 != seq!['n'],
        spec_get(t, spec_feed(t, st, s).0.0) is None,
    ensures
        spec_convert(t, st, s).1 == spec_feed(t, st, s).1 + spec_feed(t, st, s).0.0,
{
    lemma_flush_keeps_unconverted(t, spec_feed(t, st, s).0.0, spec_feed(t, st, s).0.1);
}

/// Law: an `n` followed by `y` is not turned into `ん` by the rule for `n`
/// before a consonant: it is left to the table. With a table that has no key
/// `n` and no key `ny`, the `ny` waits for the rest of the syllable.
pub proof fn lemma_ny_waits(t: TableView, nn: bool)
    requires
        spec_get(t, seq!['n']) is None,
        spec_get(t, seq!['n', 'y']) is None,
    ensures
        spec_input(t, (seq!['n'], nn), 'y') == ((seq!['n', 'y'], nn), Seq::<char>::empty()),
{
    let b = seq!['n'].push(spec_ascii_lower('y'));
    assert(b =~= seq!['n', 'y']);
    assert(b != seq!['n']);
    assert(b != seq!['n', '\'']) by {
        if b == seq!['n', '\''] {
            assert(b[1] == '\'');
        }
    }
    assert(b.take(2) =~= b);
    assert(b.take(1) =~= seq!['n']);
    assert(spec_longest_prefix(t, b, 0) is None);
    assert(spec_longest_prefix(t, b, 1) is None);
    assert(spec_longest_prefix(t, b, 2) is None);
}

/// Law: with a table that has no key `n` or `ny`, typing `n`, `y` and a vowel
/// from an empty converter gives the table's kana for that syllable (`nya`
/// → にゃ, `nyu` → にゅ, `nyo` → にょ) and nothing else.
pub proof fn lemma_ny_syllable(t: TableView, v: char, k: Seq<char>)
    requires
        spec_is_vowel(v),
        spec_get(t, seq!['n']) is None,
        spec_get(t, seq!['n', 'y']) is None,
        spec_get(t, seq!['n', 'y', v]) == Some((k, None::<Seq<char>>)),
    ensures
        spec_convert(t, (Seq::<char>::empty(), false), seq!['n', 'y', v]) == ((Seq::<char>::empty(), false), k),
{
    let e = Seq::<char>::empty();
    let s = seq!['n', 'y', v];
    // the first character: a lone `n` waits
    assert(s.drop_last().drop_last().drop_last() =~= e);
    assert(s.drop_last().drop_last() =~= seq!['n']);
    assert(s.drop_last() =~= seq!['n', 'y']);
    assert(e.push(spec_ascii_lower('n')) =~= seq!['n']);
    assert(spec_feed(t, (e, false), e) == ((e, false), e));
    assert(spec_input(t, (e, false), 'n') == ((seq!['n'], false), e));
    assert(spec_feed(t, (e, false), seq!['n']) == ((seq!['n'], false), e + e));
    assert(e + e =~= e);
    lemma_ny_waits(t, false);
    assert(spec_feed(t, (e, false), seq!['n', 'y']) == ((seq!['n', 'y'], false), e + e));
    // the vowel completes the syllable
    let b = seq!['n', 'y'].push(spec_ascii_lower(v));
    assert(b =~= s);
    assert(b != seq!['n']);
    assert(b != seq!['n', '\'']);
    assert(b.take(3) =~= b);
    assert(spec_longest_prefix(t, b, 3) == Some(3nat));
    assert(b.skip(3) =~= e);
    assert(spec_input(t, (seq!['n', 'y'], false), v) == ((e, false), k));
    assert(spec_feed(t, (e, false), s) == ((e, false), e + e + k));
    assert(e + e + k =~= k);
    assert(spec_flush(t, (e, false)) == ((e, false), e));
    assert(k + e =~= k);
}

} // verus!
