//! The human-typable form of a connection identifier: three dictionary
//! words of fourteen bits each, least significant first, joined by `-`;
//! or a legacy short form of nine base-36 digits.

use vstd::prelude::*;
use vstd::utf8::{decode_utf8, encode_utf8, is_ascii_chars, valid_utf8};
use vstd::string::StringSliceAdditionalSpecFns;
use crate::ids::{ConnectionId, MAX_CONNECTION_IDS};
use crate::text::u64_to_string;

verus! {

/// Number of words in the dictionary: one per fourteen-bit value.
pub const WORD_COUNT: usize = 16384;

/// ASCII case folding of one byte.
pub open spec fn fold_byte(b: u8) -> u8 {
    if 65 <= b <= 90 {
        (b + 32) as u8
    } else {
        b
    }
}

/// ASCII case folding of a byte string.
pub open spec fn fold_bytes(s: Seq<u8>) -> Seq<u8> {
    Seq::new(s.len(), |i: int| fold_byte(s[i]))
}

/// The UTF-8 bytes of a word.
pub open spec fn word_bytes(w: Seq<char>) -> Seq<u8> {
    encode_utf8(w)
}

/// A dictionary word: ASCII, nonempty, and free of `-`.
pub open spec fn word_ok(w: Seq<char>) -> bool {
    &&& is_ascii_chars(w)
    &&& word_bytes(w).len() >= 1
    &&& forall|j: int| 0 <= j < word_bytes(w).len() ==> (#[trigger] word_bytes(w)[j]) != 45
}

/// Strict lexicographic order on byte strings.
pub open spec fn lex_lt(a: Seq<u8>, b: Seq<u8>) -> bool
    decreases a.len(),
{
    if b.len() == 0 {
        false
    } else if a.len() == 0 {
        true
    } else if a[0] < b[0] {
        true
    } else if a[0] > b[0] {
        false
    } else {
        lex_lt(a.drop_first(), b.drop_first())
    }
}

/// The case-folded bytes of the word at an index.
pub open spec fn folded_word(d: Seq<Seq<char>>, i: int) -> Seq<u8> {
    fold_bytes(word_bytes(d[i]))
}

/// A well-formed dictionary: exactly `WORD_COUNT` words, each well formed,
/// strictly ascending once case-folded (so folded words are distinct).
pub open spec fn dict_wf(d: Seq<Seq<char>>) -> bool {
    &&& d.len() == WORD_COUNT
    &&& forall|i: int| 0 <= i < d.len() ==> word_ok(#[trigger] d[i])
    &&& forall|i: int|
        0 <= i < d.len() - 1 ==> lex_lt(#[trigger] folded_word(d, i), folded_word(d, i + 1))
}

/// The index of the word whose folded bytes match the folded token.
pub open spec fn spec_word_index(d: Seq<Seq<char>>, token: Seq<u8>) -> Option<int> {
    if exists|i: int| 0 <= i < d.len() && folded_word(d, i) == fold_bytes(token) {
        Some(choose|i: int| 0 <= i < d.len() && folded_word(d, i) == fold_bytes(token))
    } else {
        None
    }
}

/// The number of `-` bytes in a string.
pub open spec fn count_dashes(s: Seq<u8>) -> nat
    decreases s.len(),
{
    if s.len() == 0 {
        0
    } else {
        ((if s[0] == 45 {
            1int
        } else {
            0int
        }) + count_dashes(s.drop_first())) as nat
    }
}

/// The position of the first `-` byte, or the length when there is none.
pub open spec fn first_dash(s: Seq<u8>) -> int
    decreases s.len(),
{
    if s.len() == 0 {
        0
    } else if s[0] == 45 {
        0
    } else {
        1 + first_dash(s.drop_first())
    }
}

/// The base-36 value of one ASCII digit.
pub open spec fn b36_digit(b: u8) -> Option<u64> {
    if 48 <= b <= 57 {
        Some((b - 48) as u64)
    } else if 97 <= b <= 122 {
        Some((b - 97 + 10) as u64)
    } else if 65 <= b <= 90 {
        Some((b - 65 + 10) as u64)
    } else {
        None
    }
}

/// The value of a base-36 digit string, most significant digit first.
pub open spec fn b36_value(s: Seq<u8>) -> Option<nat>
    decreases s.len(),
{
    if s.len() == 0 {
        Some(0)
    } else {
        match b36_value(s.drop_last()) {
            Some(hi) => match b36_digit(s.last()) {
                Some(d) => Some((hi * 36 + d) as nat),
                None => None,
            },
            None => None,
        }
    }
}

/// What a connection-identifier string parses to: three dictionary words
/// give a 42-bit value, fourteen bits per word, least significant first;
/// one token of nine base-36 digits gives its numeric value.
pub open spec fn spec_parse_cid(d: Seq<Seq<char>>, s: Seq<u8>) -> Option<u64> {
    if count_dashes(s) == 2 {
        let p1 = first_dash(s);
        let rest = s.subrange(p1 + 1, s.len() as int);
        let p2 = first_dash(rest);
        let t0 = s.subrange(0, p1);
        let t1 = rest.subrange(0, p2);
        let t2 = rest.subrange(p2 + 1, rest.len() as int);
        match (spec_word_index(d, t0), spec_word_index(d, t1), spec_word_index(d, t2)) {
            (Some(i0), Some(i1), Some(i2)) => Some(
                (i0 + i1 * 0x4000 + i2 * 0x10000000) as u64,
            ),
            _ => None,
        }
    } else if count_dashes(s) == 0 && s.len() == 9 {
        match b36_value(s) {
            Some(v) => Some(v as u64),
            None => None,
        }
    } else {
        None
    }
}

/// The text a failed parse reports: the first unknown word, a bad digit,
/// a wrong digit count, or a wrong word count.
pub open spec fn spec_parse_cid_error(d: Seq<Seq<char>>, s: Seq<u8>) -> Seq<char>
    recommends
        spec_parse_cid(d, s) is None,
{
    if count_dashes(s) == 2 {
        let p1 = first_dash(s);
        let rest = s.subrange(p1 + 1, s.len() as int);
        let p2 = first_dash(rest);
        let t0 = s.subrange(0, p1);
        let t1 = rest.subrange(0, p2);
        let t2 = rest.subrange(p2 + 1, rest.len() as int);
        if spec_word_index(d, t0) is None {
            "Unknown word "@ + decode_utf8(t0) + "."@
        } else if spec_word_index(d, t1) is None {
            "Unknown word "@ + decode_utf8(t1) + "."@
        } else {
            "Unknown word "@ + decode_utf8(t2) + "."@
        }
    } else if count_dashes(s) == 0 && s.len() == 9 {
        "Invalid digit in short connection ID"@
    } else if count_dashes(s) == 0 {
        "Expected nine digit short connection ID, found "@ + crate::text::dec_chars(s.len())
            + " digits."@
    } else {
        "Three words are expected. Found "@ + crate::text::dec_chars((count_dashes(s) + 1) as nat)
            + " words."@
    }
}

/// The three-word rendering of an identifier value.
pub open spec fn spec_render(d: Seq<Seq<char>>, v: u64) -> Seq<char> {
    d[v as int % 0x4000] + seq!['-'] + d[(v as int / 0x4000) % 0x4000] + seq!['-'] + d[(
    v as int / 0x10000000) % 0x4000]
}

/// The word dictionary, loaded once at startup.
pub struct Dictionary {
    words: Vec<String>,
}

impl View for Dictionary {
    type V = Seq<Seq<char>>;

    closed spec fn view(&self) -> Seq<Seq<char>> {
        Seq::new(self.words@.len(), |i: int| self.words@[i]@)
    }
}

fn fold_vec(bytes: &[u8]) -> (r: Vec<u8>)
    ensures
        r@ == fold_bytes(bytes@),
{
    let mut out: Vec<u8> = Vec::new();
    let mut k: usize = 0;
    while k < bytes.len()
        invariant
            k <= bytes@.len(),
            out@ =~= fold_bytes(bytes@).subrange(0, k as int),
        decreases bytes@.len() - k,
    {
        let b = bytes[k];
        let f = if b >= 65 && b <= 90 {
            b + 32
        } else {
            b
        };
        out.push(f);
        proof {
            assert(out@ =~= fold_bytes(bytes@).subrange(0, k + 1));
        }
        k += 1;
    }
    proof {
        assert(out@ =~= fold_bytes(bytes@));
    }
    out
}

/// Three-way lexicographic comparison; negative, zero or positive as the
/// first string is below, equal to or above the second.
fn lex_compare(a: &[u8], b: &[u8]) -> (r: i8)
    ensures
        r == -1 || r == 0 || r == 1,
        r == -1 <==> lex_lt(a@, b@),
        r == 0 <==> a@ == b@,
        r == 1 <==> lex_lt(b@, a@),
{
    let ghost av = a@;
    let ghost bv = b@;
    let mut k: usize = 0;
    proof {
        lemma_lex_suffix(av, bv, 0);
        lemma_lex_suffix(bv, av, 0);
    }
    while k < a.len() && k < b.len()
        invariant
            av == a@,
            bv == b@,
            k <= av.len(),
            k <= bv.len(),
            forall|i: int| 0 <= i < k ==> av[i] == bv[i],
            lex_lt(av, bv) == lex_lt(
                av.subrange(k as int, av.len() as int),
                bv.subrange(k as int, bv.len() as int),
            ),
            lex_lt(bv, av) == lex_lt(
                bv.subrange(k as int, bv.len() as int),
                av.subrange(k as int, av.len() as int),
            ),
        decreases av.len() - k,
    {
        let x = a[k];
        let y = b[k];
        proof {
            let at = av.subrange(k as int, av.len() as int);
            let bt = bv.subrange(k as int, bv.len() as int);
            assert(at[0] == av[k as int]);
            assert(bt[0] == bv[k as int]);
            assert(at.drop_first() =~= av.subrange(k + 1, av.len() as int));
            assert(bt.drop_first() =~= bv.subrange(k + 1, bv.len() as int));
        }
        if x < y {
            return -1;
        }
        if x > y {
            return 1;
        }
        k += 1;
    }
    proof {
        let at = av.subrange(k as int, av.len() as int);
        let bt = bv.subrange(k as int, bv.len() as int);
        if k == av.len() && k == bv.len() {
            assert(av =~= bv);
            assert(!lex_lt(at, bt));
            assert(!lex_lt(bt, at));
        } else if k == av.len() {
            assert(at.len() == 0 && bt.len() > 0);
            assert(lex_lt(at, bt));
            assert(av.len() < bv.len());
            assert(av != bv);
        } else {
            assert(bt.len() == 0 && at.len() > 0);
            assert(lex_lt(bt, at));
            assert(av != bv);
        }
    }
    if a.len() == b.len() {
        0
    } else if a.len() < b.len() {
        -1
    } else {
        1
    }
}

/// Comparison looks only at the suffixes once a common prefix agrees.
proof fn lemma_lex_suffix(a: Seq<u8>, b: Seq<u8>, k: int)
    requires
        0 <= k <= a.len(),
        0 <= k <= b.len(),
        forall|i: int| 0 <= i < k ==> a[i] == b[i],
    ensures
        lex_lt(a, b) == lex_lt(a.subrange(k, a.len() as int), b.subrange(k, b.len() as int)),
    decreases k,
{
    if k == 0 {
        assert(a.subrange(0, a.len() as int) =~= a);
        assert(b.subrange(0, b.len() as int) =~= b);
    } else {
        assert(a.len() > 0 && b.len() > 0 && a[0] == b[0]);
        assert(lex_lt(a, b) == lex_lt(a.drop_first(), b.drop_first()));
        assert forall|i: int| 0 <= i < k - 1 implies a.drop_first()[i] == b.drop_first()[i] by {
            assert(a.drop_first()[i] == a[i + 1] && b.drop_first()[i] == b[i + 1]);
        }
        lemma_lex_suffix(a.drop_first(), b.drop_first(), k - 1);
        assert(a.drop_first().subrange(k - 1, a.drop_first().len() as int) =~= a.subrange(
            k,
            a.len() as int,
        ));
        assert(b.drop_first().subrange(k - 1, b.drop_first().len() as int) =~= b.subrange(
            k,
            b.len() as int,
        ));
    }
}

/// The order is transitive.
proof fn lemma_lex_trans(a: Seq<u8>, b: Seq<u8>, c: Seq<u8>)
    requires
        lex_lt(a, b),
        lex_lt(b, c),
    ensures
        lex_lt(a, c),
    decreases a.len() + b.len() + c.len(),
{
    if a.len() == 0 {
    } else {
        if a[0] < b[0] {
            if b[0] < c[0] {
            } else {
                assert(b[0] == c[0]);
            }
        } else {
            assert(a[0] == b[0]);
            if b[0] < c[0] {
            } else {
                assert(b[0] == c[0]);
                lemma_lex_trans(a.drop_first(), b.drop_first(), c.drop_first());
            }
        }
    }
}

/// The order is irreflexive.
proof fn lemma_lex_irrefl(a: Seq<u8>)
    ensures
        !lex_lt(a, a),
    decreases a.len(),
{
    if a.len() > 0 {
        lemma_lex_irrefl(a.drop_first());
    }
}

/// In a well-formed dictionary the folded words are strictly ascending,
/// hence pairwise distinct.
proof fn lemma_dict_distinct(d: Seq<Seq<char>>, i: int, j: int)
    requires
        dict_wf(d),
        0 <= i < j < d.len(),
    ensures
        lex_lt(folded_word(d, i), folded_word(d, j)),
        folded_word(d, i) != folded_word(d, j),
    decreases j - i,
{
    if j == i + 1 {
        assert(lex_lt(folded_word(d, i), folded_word(d, i + 1)));
    } else {
        lemma_dict_distinct(d, i, j - 1);
        assert(lex_lt(folded_word(d, j - 1), folded_word(d, (j - 1) + 1)));
        lemma_lex_trans(folded_word(d, i), folded_word(d, j - 1), folded_word(d, j));
    }
    if folded_word(d, i) == folded_word(d, j) {
        lemma_lex_irrefl(folded_word(d, i));
    }
}

impl Dictionary {
    /// Builds the dictionary from exactly `WORD_COUNT` words. Each word
    /// must be nonempty ASCII without `-`, and the words must be strictly
    /// ascending once case-folded.
    pub fn new(words: Vec<String>) -> (r: Result<Dictionary, String>)
        ensures
            r is Ok <==> dict_wf(Seq::new(words@.len(), |i: int| words@[i]@)),
            r matches Ok(d) ==> d@ == Seq::new(words@.len(), |i: int| words@[i]@) && dict_wf(d@),
    {
        let ghost wv = Seq::new(words@.len(), |i: int| words@[i]@);
        if words.len() != WORD_COUNT {
            proof {
                assert(!dict_wf(wv));
            }
            return Err(String::from_str("The dictionary must hold exactly 16384 words"));
        }
        let mut k: usize = 0;
        while k < words.len()
            invariant
                wv == Seq::new(words@.len(), |i: int| words@[i]@),
                wv.len() == WORD_COUNT,
                k <= wv.len(),
                forall|i: int| 0 <= i < k ==> word_ok(#[trigger] wv[i]),
                forall|i: int|
                    0 <= i < k - 1 ==> lex_lt(#[trigger] folded_word(wv, i), folded_word(wv, i + 1)),
            decreases wv.len() - k,
        {
            let w = &words[k];
            if !word_is_ok(w) {
                proof {
                    assert(!word_ok(wv[k as int]));
                    assert(!dict_wf(wv));
                }
                return Err(String::from_str(
                    "Dictionary words must be nonempty ASCII without a dash",
                ));
            }
            if k > 0 {
                let prev = fold_vec(words[k - 1].as_str().as_bytes());
                let cur = fold_vec(w.as_str().as_bytes());
                proof {
                    assert(prev@ == folded_word(wv, k - 1));
                    assert(cur@ == folded_word(wv, k as int));
                }
                if lex_compare(prev.as_slice(), cur.as_slice()) != -1 {
                    proof {
                        assert(!lex_lt(folded_word(wv, k - 1), folded_word(wv, (k - 1) + 1)));
                        assert(!dict_wf(wv));
                    }
                    return Err(String::from_str(
                        "Dictionary words must be strictly ascending once case-folded",
                    ));
                }
            }
            k += 1;
        }
        let d = Dictionary { words };
        proof {
            assert(d@ =~= wv);
            assert(dict_wf(d@));
        }
        Ok(d)
    }

    /// The index a token resolves to, case-insensitively.
    #[verifier::loop_isolation(false)]
    fn lookup(&self, token: &[u8]) -> (r: Option<usize>)
        requires
            dict_wf(self@),
        ensures
            match r {
                Some(i) => 0 <= i < self@.len() && folded_word(self@, i as int) == fold_bytes(
                    token@,
                ) && spec_word_index(self@, token@) == Some(i as int),
                None => spec_word_index(self@, token@) is None,
            },
    {
        let folded = fold_vec(token);
        let ghost dv = self@;
        let mut k: usize = 0;
        while k < self.words.len()
            invariant
                k <= dv.len(),
                forall|i: int| 0 <= i < k ==> folded_word(dv, i) != fold_bytes(token@),
            decreases dv.len() - k,
        {
            let wf_ = fold_vec(self.words[k].as_str().as_bytes());
            if lex_compare(wf_.as_slice(), folded.as_slice()) == 0 {
                proof {
                    assert(folded_word(dv, k as int) == fold_bytes(token@));
                    let w = choose|i: int|
                        0 <= i < dv.len() && folded_word(dv, i) == fold_bytes(token@);
                    if w != k as int {
                        if w < k as int {
                            lemma_dict_distinct(dv, w, k as int);
                        } else {
                            lemma_dict_distinct(dv, k as int, w);
                        }
                    }
                }
                return Some(k);
            }
            k += 1;
        }
        proof {
            if spec_word_index(dv, token@) is Some {
                let w = choose|i: int|
                    0 <= i < dv.len() && folded_word(dv, i) == fold_bytes(token@);
                assert(false);
            }
        }
        None
    }

    /// Renders an identifier as its three words joined by `-`.
    pub fn render(&self, id: ConnectionId) -> (r: String)
        requires
            dict_wf(self@),
        ensures
            r@ == spec_render(self@, id.spec_id()),
    {
        let v = id.raw();
        let i0 = (v % 0x4000) as usize;
        let i1 = ((v / 0x4000) % 0x4000) as usize;
        let i2 = ((v / 0x10000000) % 0x4000) as usize;
        let mut out = clone_str(&self.words[i0]);
        out.append("-");
        out.append(self.words[i1].as_str());
        out.append("-");
        out.append(self.words[i2].as_str());
        proof {
            reveal_strlit("-");
            assert("-"@ =~= seq!['-']);
            assert(out@ =~= spec_render(self@, v));
        }
        out
    }

    /// Parses a connection identifier: three dictionary words joined by
    /// `-`, or nine base-36 digits.
    pub fn parse(&self, s: &str) -> (r: Result<ConnectionId, String>)
        requires
            dict_wf(self@),
        ensures
            r is Ok <==> spec_parse_cid(self@, s.spec_bytes()) is Some,
            r matches Ok(c) ==> Some(c.spec_id()) == spec_parse_cid(self@, s.spec_bytes()),
            r matches Err(m) ==> m@ == spec_parse_cid_error(self@, s.spec_bytes()),
    {
        let bytes = s.as_bytes();
        let blen = bytes.len();
        let ghost bv = bytes@;
        let (dashes, p1) = count_and_first(bytes);
        if dashes == 2 {
            proof {
                lemma_dash_count_split(bv, p1 as int);
            }
            let t0 = vstd::slice::slice_subrange(bytes, 0, p1);
            let rest = vstd::slice::slice_subrange(bytes, p1 + 1, blen);
            let rlen = rest.len();
            let (rdashes, p2) = count_and_first(rest);
            proof {
                lemma_dash_count_split(rest@, p2 as int);
            }
            let t1 = vstd::slice::slice_subrange(rest, 0, p2);
            let t2 = vstd::slice::slice_subrange(rest, p2 + 1, rlen);
            proof {
                broadcast use vstd::utf8::encode_utf8_valid_utf8;

                let suffix1 = bv.subrange(p1 as int, bv.len() as int);
                crate::wire::lemma_ascii_cut_valid(bv, p1 as int);
                assert(suffix1[0] == bv[p1 as int]);
                crate::wire::lemma_drop_ascii_head(suffix1);
                assert(suffix1.subrange(1, suffix1.len() as int) =~= rest@);
                crate::wire::lemma_ascii_cut_valid(rest@, p2 as int);
                let suffix2 = rest@.subrange(p2 as int, rest@.len() as int);
                assert(suffix2[0] == rest@[p2 as int]);
                crate::wire::lemma_drop_ascii_head(suffix2);
                assert(suffix2.subrange(1, suffix2.len() as int) =~= t2@);
            }
            let i0 = match self.lookup(t0) {
                Some(i) => i,
                None => {
                    return Err(unknown_word(t0));
                },
            };
            let i1 = match self.lookup(t1) {
                Some(i) => i,
                None => {
                    return Err(unknown_word(t1));
                },
            };
            let i2 = match self.lookup(t2) {
                Some(i) => i,
                None => {
                    return Err(unknown_word(t2));
                },
            };
            let v = (i0 as u64) + (i1 as u64) * 0x4000 + (i2 as u64) * 0x10000000;
            Ok(ConnectionId::from_raw(v))
        } else if dashes == 0 && bytes.len() == 9 {
            match parse_base36(bytes) {
                Some(v) => Ok(ConnectionId::from_raw(v)),
                None => Err(String::from_str("Invalid digit in short connection ID")),
            }
        } else if dashes == 0 {
            let mut m = String::from_str("Expected nine digit short connection ID, found ");
            m.append(u64_to_string(bytes.len() as u64).as_str());
            m.append(" digits.");
            Err(m)
        } else {
            let mut m = String::from_str("Three words are expected. Found ");
            m.append(crate::text::u128_to_string(dashes as u128 + 1).as_str());
            m.append(" words.");
            Err(m)
        }
    }
}

fn clone_str(s: &String) -> (r: String)
    ensures
        r@ == s@,
{
    s.clone()
}

fn unknown_word(token: &[u8]) -> (r: String)
    requires
        valid_utf8(token@),
    ensures
        r@ == "Unknown word "@ + decode_utf8(token@) + "."@,
{
    let mut m = String::from_str("Unknown word ");
    match crate::wire::string_from_utf8(vstd::slice::slice_to_vec(token)) {
        Some(w) => {
            m.append(w.as_str());
            m.append(".");
        },
        None => {
            proof {
                assert(false);
            }
        },
    }
    m
}

/// Counts the dashes in a byte string and finds the first one.
#[verifier::loop_isolation(false)]
fn count_and_first(s: &[u8]) -> (r: (usize, usize))
    ensures
        r.0 == count_dashes(s@),
        r.1 == first_dash(s@),
        r.1 <= s@.len(),
{
    let ghost sv = s@;
    let mut count: usize = 0;
    let mut first: usize = 0;
    let mut k: usize = 0;
    proof {
        assert(sv.subrange(0, sv.len() as int) =~= sv);
    }
    while k < s.len()
        invariant
            k <= sv.len(),
            count <= k,
            count_dashes(sv) == count + count_dashes(sv.subrange(k as int, sv.len() as int)),
            first == if count > 0 {
                first_dash(sv)
            } else {
                k as int
            },
            count > 0 ==> first_dash(sv) < k,
            count == 0 ==> first_dash(sv) == k + first_dash(
                sv.subrange(k as int, sv.len() as int),
            ),
            first <= sv.len(),
        decreases sv.len() - k,
    {
        let ghost tail = sv.subrange(k as int, sv.len() as int);
        proof {
            assert(tail[0] == sv[k as int]);
            assert(tail.drop_first() =~= sv.subrange(k + 1, sv.len() as int));
        }
        if s[k] == 45 {
            if count == 0 {
                first = k;
            }
            count = count + 1;
        } else {
            if count == 0 {
                first = k + 1;
            }
        }
        k += 1;
    }
    proof {
        assert(sv.subrange(k as int, sv.len() as int).len() == 0);
    }
    (count, first)
}

/// Parses exactly nine base-36 digits.
#[verifier::loop_isolation(false)]
fn parse_base36(s: &[u8]) -> (r: Option<u64>)
    requires
        s@.len() == 9,
    ensures
        match b36_value(s@) {
            Some(v) => r == Some(v as u64),
            None => r is None,
        },
{
    let ghost sv = s@;
    let mut v: u64 = 0;
    let mut k: usize = 0;
    proof {
        assert(sv.subrange(0, 0) =~= Seq::<u8>::empty());
        lemma_b36_bound(sv.subrange(0, 0));
    }
    while k < s.len()
        invariant
            k <= sv.len(),
            sv.len() == 9,
            b36_value(sv.subrange(0, k as int)) == Some(v as nat),
            v < pow36(k as nat),
        decreases sv.len() - k,
    {
        let d = match digit36(s[k]) {
            Some(d) => d,
            None => {
                proof {
                    lemma_b36_prefix_none(sv, k as int);
                }
                return None;
            },
        };
        proof {
            assert(sv.subrange(0, k + 1).drop_last() =~= sv.subrange(0, k as int));
            assert(sv.subrange(0, k + 1).last() == sv[k as int]);
            lemma_pow36_values();
            lemma_pow36_le((k + 1) as nat, 9);
        }
        v = v * 36 + d;
        k += 1;
    }
    proof {
        assert(sv.subrange(0, 9) =~= sv);
    }
    Some(v)
}

fn digit36(b: u8) -> (r: Option<u64>)
    ensures
        r == b36_digit(b),
{
    if b >= 48 && b <= 57 {
        Some((b - 48) as u64)
    } else if b >= 97 && b <= 122 {
        Some((b - 97 + 10) as u64)
    } else if b >= 65 && b <= 90 {
        Some((b - 65 + 10) as u64)
    } else {
        None
    }
}

/// 36 to the power `n`.
pub open spec fn pow36(n: nat) -> nat
    decreases n,
{
    if n == 0 {
        1
    } else {
        36 * pow36((n - 1) as nat)
    }
}

proof fn lemma_pow36_values()
    ensures
        pow36(9) == 101559956668416,
{
    assert(pow36(0) == 1);
    assert(pow36(1) == 36 * pow36(0));
    assert(pow36(2) == 36 * pow36(1));
    assert(pow36(3) == 36 * pow36(2));
    assert(pow36(4) == 36 * pow36(3));
    assert(pow36(5) == 36 * pow36(4));
    assert(pow36(6) == 36 * pow36(5));
    assert(pow36(7) == 36 * pow36(6));
    assert(pow36(8) == 36 * pow36(7));
    assert(pow36(9) == 36 * pow36(8));
}

proof fn lemma_pow36_le(a: nat, b: nat)
    requires
        a <= b,
    ensures
        pow36(a) <= pow36(b),
    decreases b,
{
    if a < b && b > 0 {
        lemma_pow36_le(a, (b - 1) as nat);
        assert(pow36((b - 1) as nat) >= 1) by {
            lemma_pow36_pos((b - 1) as nat);
        }
    }
}

proof fn lemma_pow36_pos(n: nat)
    ensures
        pow36(n) >= 1,
    decreases n,
{
    if n > 0 {
        lemma_pow36_pos((n - 1) as nat);
    }
}

proof fn lemma_b36_bound(s: Seq<u8>)
    ensures
        b36_value(s) matches Some(v) ==> v < pow36(s.len()),
    decreases s.len(),
{
    if s.len() > 0 {
        lemma_b36_bound(s.drop_last());
    }
}

/// A bad digit anywhere makes the whole string invalid.
proof fn lemma_b36_prefix_none(s: Seq<u8>, k: int)
    requires
        0 <= k < s.len(),
        b36_digit(s[k]) is None,
    ensures
        b36_value(s) is None,
    decreases s.len(),
{
    if k == s.len() - 1 {
    } else {
        assert(s.drop_last()[k] == s[k]);
        lemma_b36_prefix_none(s.drop_last(), k);
    }
}

/// Splitting at the first dash: the leading token has no dash, and the
/// remainder holds the remaining dashes.
proof fn lemma_dash_count_split(s: Seq<u8>, p: int)
    requires
        p == first_dash(s),
        count_dashes(s) > 0,
    ensures
        0 <= p < s.len(),
        s[p] == 45,
        forall|i: int| 0 <= i < p ==> s[i] != 45,
        count_dashes(s.subrange(p + 1, s.len() as int)) == count_dashes(s) - 1,
    decreases s.len(),
{
    if s.len() > 0 {
        if s[0] == 45 {
            assert(s.subrange(1, s.len() as int) =~= s.drop_first());
        } else {
            lemma_dash_count_split(s.drop_first(), p - 1);
            assert forall|i: int| 0 <= i < p implies s[i] != 45 by {
                if i > 0 {
                    assert(s.drop_first()[i - 1] == s[i]);
                }
            }
            assert(s.drop_first()[p - 1] == s[p]);
            assert(s.drop_first().subrange(p, s.drop_first().len() as int) =~= s.subrange(
                p + 1,
                s.len() as int,
            ));
        }
    }
}

#[verifier::loop_isolation(false)]
fn word_is_ok(w: &String) -> (r: bool)
    ensures
        r <==> word_ok(w@),
{
    let s = w.as_str();
    if !s.is_ascii() {
        return false;
    }
    let bytes = s.as_bytes();
    if bytes.len() == 0 {
        return false;
    }
    let ghost wb = word_bytes(w@);
    let mut k: usize = 0;
    while k < bytes.len()
        invariant
            bytes@ == wb,
            k <= wb.len(),
            wb.len() > 0,
            is_ascii_chars(w@),
            forall|j: int| 0 <= j < k ==> wb[j] != 45,
        decreases wb.len() - k,
    {
        if bytes[k] == 45 {
            proof {
                assert(word_bytes(w@)[k as int] == 45);
            }
            return false;
        }
        k += 1;
    }
    true
}


/// Dash counting distributes over concatenation.
proof fn lemma_count_concat(a: Seq<u8>, b: Seq<u8>)
    ensures
        count_dashes(a + b) == count_dashes(a) + count_dashes(b),
    decreases a.len(),
{
    if a.len() == 0 {
        assert(a + b =~= b);
    } else {
        assert((a + b)[0] == a[0]);
        assert((a + b).drop_first() =~= a.drop_first() + b);
        lemma_count_concat(a.drop_first(), b);
    }
}

/// A string without dash bytes counts none.
proof fn lemma_count_none(a: Seq<u8>)
    requires
        forall|j: int| 0 <= j < a.len() ==> (#[trigger] a[j]) != 45,
    ensures
        count_dashes(a) == 0,
    decreases a.len(),
{
    if a.len() > 0 {
        assert forall|j: int| 0 <= j < a.drop_first().len() implies (#[trigger] a.drop_first()[j])
            != 45 by {
            assert(a.drop_first()[j] == a[j + 1]);
        }
        lemma_count_none(a.drop_first());
    }
}

/// The first dash of a dash-free prefix followed by a dash is at the
/// prefix's end.
proof fn lemma_first_dash_prefix(a: Seq<u8>, rest: Seq<u8>)
    requires
        forall|j: int| 0 <= j < a.len() ==> (#[trigger] a[j]) != 45,
        rest.len() > 0,
        rest[0] == 45,
    ensures
        first_dash(a + rest) == a.len(),
    decreases a.len(),
{
    if a.len() == 0 {
        assert(a + rest =~= rest);
    } else {
        assert((a + rest)[0] == a[0]);
        assert((a + rest).drop_first() =~= a.drop_first() + rest);
        assert forall|j: int| 0 <= j < a.drop_first().len() implies (#[trigger] a.drop_first()[j])
            != 45 by {
            assert(a.drop_first()[j] == a[j + 1]);
        }
        lemma_first_dash_prefix(a.drop_first(), rest);
    }
}

/// A dash encodes to the single dash byte.
proof fn lemma_enc_dash()
    ensures
        encode_utf8(seq!['-']) =~= seq![45u8],
{
    reveal_strlit("-");
    let c = '-';
    assert(c as u32 == 45);
    assert(seq!['-'].drop_first() =~= Seq::<char>::empty());
    assert(encode_utf8(Seq::<char>::empty()) =~= Seq::<u8>::empty());
    assert((45u32 & 0x7f) as u8 == 45u8) by (bit_vector);
    assert(vstd::utf8::encode_scalar(45) =~= seq![45u8]);
    assert(encode_utf8(seq!['-']) =~= vstd::utf8::encode_scalar(45) + Seq::<u8>::empty());
}

/// Rendering an identifier and parsing the rendering yields the same
/// identifier: each word resolves uniquely in a well-formed dictionary,
/// and the three fourteen-bit indices reassemble the value.
#[verifier::rlimit(100)]
pub proof fn lemma_cid_round_trip(d: Seq<Seq<char>>, v: u64)
    requires
        dict_wf(d),
        v < crate::ids::MAX_CONNECTION_IDS,
    ensures
        spec_parse_cid(d, encode_utf8(spec_render(d, v))) == Some(v),
{
    let i0 = v as int % 0x4000;
    let i1 = (v as int / 0x4000) % 0x4000;
    let i2 = (v as int / 0x10000000) % 0x4000;
    let w0 = d[i0];
    let w1 = d[i1];
    let w2 = d[i2];
    let b0 = word_bytes(w0);
    let b1 = word_bytes(w1);
    let b2 = word_bytes(w2);
    assert(word_ok(w0) && word_ok(w1) && word_ok(w2));
    let s = encode_utf8(spec_render(d, v));
    crate::relay::lemma_encode_utf8_concat(w0 + seq!['-'] + w1 + seq!['-'], w2);
    crate::relay::lemma_encode_utf8_concat(w0 + seq!['-'] + w1, seq!['-']);
    crate::relay::lemma_encode_utf8_concat(w0 + seq!['-'], w1);
    crate::relay::lemma_encode_utf8_concat(w0, seq!['-']);
    lemma_enc_dash();
    assert(s =~= b0 + seq![45u8] + b1 + seq![45u8] + b2);
    let mid = seq![45u8] + b1 + seq![45u8] + b2;
    assert(s =~= b0 + mid);
    assert(mid[0] == 45);
    lemma_first_dash_prefix(b0, mid);
    assert(first_dash(s) == b0.len());
    lemma_count_none(b0);
    lemma_count_none(b1);
    lemma_count_none(b2);
    lemma_count_concat(b0, mid);
    lemma_count_concat(seq![45u8] + b1 + seq![45u8], b2);
    lemma_count_concat(seq![45u8] + b1, seq![45u8]);
    lemma_count_concat(seq![45u8], b1);
    assert(count_dashes(seq![45u8]) == 1) by {
        assert(seq![45u8].drop_first() =~= Seq::<u8>::empty());
        assert(count_dashes(Seq::<u8>::empty()) == 0);
    }
    assert(count_dashes(s) == 2);
    let p1 = first_dash(s);
    let rest = s.subrange(p1 + 1, s.len() as int);
    assert(rest =~= b1 + (seq![45u8] + b2));
    assert((seq![45u8] + b2)[0] == 45);
    lemma_first_dash_prefix(b1, seq![45u8] + b2);
    let p2 = first_dash(rest);
    assert(p2 == b1.len());
    let t0 = s.subrange(0, p1);
    let t1 = rest.subrange(0, p2);
    let t2 = rest.subrange(p2 + 1, rest.len() as int);
    assert(t0 =~= b0);
    assert(t1 =~= b1);
    assert(t2 =~= b2);
    lemma_index_of_own_word(d, i0);
    lemma_index_of_own_word(d, i1);
    lemma_index_of_own_word(d, i2);
    assert(spec_word_index(d, t0) == Some(i0));
    assert(spec_word_index(d, t1) == Some(i1));
    assert(spec_word_index(d, t2) == Some(i2));
    assert((v as int % 0x4000) + ((v as int / 0x4000) % 0x4000) * 0x4000 + ((v as int
        / 0x10000000) % 0x4000) * 0x10000000 == v) by {
        assert(crate::ids::MAX_CONNECTION_IDS == 0x40000000000) by {
            assert(1u64 << 42 == 0x40000000000u64) by (bit_vector);
        }
        assert((v % 0x4000) + ((v / 0x4000) % 0x4000) * 0x4000 + ((v / 0x10000000) % 0x4000)
            * 0x10000000 == v) by (bit_vector)
            requires
                v < 0x40000000000u64,
        ;
    }
}

/// A word of a well-formed dictionary resolves to its own index.
proof fn lemma_index_of_own_word(d: Seq<Seq<char>>, i: int)
    requires
        dict_wf(d),
        0 <= i < d.len(),
    ensures
        spec_word_index(d, word_bytes(d[i])) == Some(i),
{
    assert(folded_word(d, i) == fold_bytes(word_bytes(d[i])));
    let w = choose|w: int|
        0 <= w < d.len() && folded_word(d, w) == fold_bytes(word_bytes(d[i]));
    if w != i {
        if w < i {
            lemma_dict_distinct(d, w, i);
        } else {
            lemma_dict_distinct(d, i, w);
        }
    }
}

} // verus!
