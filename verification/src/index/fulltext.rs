//! Full-text inverted index: tokens of a text, lower-cased and stemmed,
//! mapped to the postings of the documents that hold them.

use vstd::prelude::*;
use vstd::string::StrSliceExecFns;

use crate::chars::{alphanumeric, is_alphanumeric, lowercase_of, to_lowercase};
use crate::error::OvnResult;
use crate::format::obe::value::{
    bytes_equal, find_key, key_bytes, keys_sorted, lemma_find_key, lemma_find_sorted, lemma_lookup_after_insert,
    lemma_lookup_after_remove, lookup, FieldMap,
};

verus! {

// ── Tokens ────────────────────────────────────────────────────────────────

/// A piece of text is kept as a token when its UTF-8 form has at least two
/// bytes.
pub open spec fn kept(w: Seq<char>) -> Seq<Seq<char>> {
    if key_bytes(w).len() >= 2 {
        seq![w]
    } else {
        Seq::empty()
    }
}

/// The tokens of `s` when the piece read so far is `cur`: the text is cut
/// at every char that is not alphanumeric, and the pieces are kept in order.
pub open spec fn split_tokens(s: Seq<char>, cur: Seq<char>) -> Seq<Seq<char>>
    decreases s.len(),
{
    if s.len() == 0 {
        kept(cur)
    } else if alphanumeric(s[0]) {
        split_tokens(s.drop_first(), cur.push(s[0]))
    } else {
        kept(cur) + split_tokens(s.drop_first(), Seq::empty())
    }
}

/// The tokens of a text: the pieces of its lower-cased form.
pub open spec fn text_tokens(text: Seq<char>) -> Seq<Seq<char>> {
    split_tokens(lowercase_of(text), Seq::empty())
}

/// `w` ends with `suffix`.
pub open spec fn ends_with(w: Seq<char>, suffix: Seq<char>) -> bool {
    suffix.len() <= w.len() && w.skip(w.len() - suffix.len()) == suffix
}

/// `w` without its last `suffix.len()` chars.
pub open spec fn strip(w: Seq<char>, suffix: Seq<char>) -> Seq<char> {
    w.take(w.len() - suffix.len())
}

/// Suffix stripping on a lower-cased word: the first rule that applies, by
/// suffix and by the word's length in UTF-8 bytes.
pub open spec fn stem_of(w: Seq<char>) -> Seq<char> {
    let n = key_bytes(w).len();
    if ends_with(w, "ing"@) && n > 5 {
        strip(w, "ing"@)
    } else if ends_with(w, "tion"@) && n > 6 {
        strip(w, "tion"@)
    } else if ends_with(w, "ness"@) && n > 6 {
        strip(w, "ness"@)
    } else if ends_with(w, "ment"@) && n > 6 {
        strip(w, "ment"@)
    } else if ends_with(w, "ly"@) && n > 4 {
        strip(w, "ly"@)
    } else if ends_with(w, "es"@) && n > 4 {
        strip(w, "es"@)
    } else if ends_with(w, "ed"@) && n > 4 {
        strip(w, "ed"@)
    } else if ends_with(w, "s"@) && !ends_with(w, "ss"@) && n > 3 {
        strip(w, "s"@)
    } else {
        w
    }
}

/// The index term of a token: its lower-cased form, stemmed.
pub open spec fn term_of(token: Seq<char>) -> Seq<char> {
    stem_of(lowercase_of(token))
}

/// The terms of a text, one per token, in order.
pub open spec fn text_terms(text: Seq<char>) -> Seq<Seq<char>> {
    text_tokens(text).map_values(|w: Seq<char>| term_of(w))
}

/// The views of a list of strings.
pub open spec fn strings_view(v: Seq<String>) -> Seq<Seq<char>> {
    v.map_values(|s: String| s@)
}

fn str_ends_with(s: &str, suffix: &str) -> (b: bool)
    ensures
        b == ends_with(s@, suffix@),
{
    let n = s.unicode_len();
    let m = suffix.unicode_len();
    if m > n {
        return false;
    }
    let start = n - m;
    let mut i: usize = 0;
    while i < m
        invariant
            n == s@.len(),
            m == suffix@.len(),
            start == n - m,
            i <= m,
            forall|k: int| 0 <= k < i ==> s@[start + k] == suffix@[k],
        decreases m - i,
    {
        if s.get_char(start + i) != suffix.get_char(i) {
            assert(s@.skip(start as int)[i as int] != suffix@[i as int]);
            return false;
        }
        i = i + 1;
    }
    assert(s@.skip(start as int) =~= suffix@);
    true
}

fn strip_suffix(s: &str, suffix: &str) -> (r: String)
    requires
        ends_with(s@, suffix@),
    ensures
        r@ == strip(s@, suffix@),
{
    let n = s.unicode_len();
    let m = suffix.unicode_len();
    s.substring_char(0, n - m).to_string()
}

/// The bytes of `s` in UTF-8 number at least two.
fn two_bytes_or_more(s: &str) -> (b: bool)
    ensures
        b == (key_bytes(s@).len() >= 2),
{
    let bytes = s.as_bytes();
    assert(bytes@ == key_bytes(s@));
    bytes.len() >= 2
}

/// Distinct texts have distinct UTF-8 bytes.
pub proof fn lemma_key_bytes_injective(a: Seq<char>, b: Seq<char>)
    requires
        key_bytes(a) == key_bytes(b),
    ensures
        a == b,
{
    vstd::utf8::encode_utf8_decode_utf8(a);
    vstd::utf8::encode_utf8_decode_utf8(b);
}

/// Split `text`, lower-cased, into tokens: the runs of alphanumeric chars,
/// each kept when it has at least two bytes in UTF-8.
fn tokens(text: &str) -> (r: Vec<String>)
    ensures
        strings_view(r@) == text_tokens(text@),
{
    let lower = to_lowercase(text);
    let l = lower.as_str();
    let ghost ls = l@;
    let n = l.unicode_len();
    let mut out: Vec<String> = Vec::new();
    let mut start: usize = 0;
    let mut i: usize = 0;
    assert(ls.skip(0) =~= ls);
    assert(ls.subrange(0, 0) =~= Seq::<char>::empty());
    assert(strings_view(out@) + split_tokens(ls, Seq::empty()) =~= split_tokens(ls, Seq::empty()));
    while i < n
        invariant
            ls == l@,
            n == ls.len(),
            start <= i <= n,
            strings_view(out@) + split_tokens(ls.skip(i as int), ls.subrange(start as int, i as int))
                == split_tokens(ls, Seq::empty()),
        decreases n - i,
    {
        let c = l.get_char(i);
        let ghost rest = ls.skip(i as int);
        assert(rest[0] == c);
        assert(rest.drop_first() =~= ls.skip(i + 1));
        if is_alphanumeric(c) {
            assert(ls.subrange(start as int, i as int).push(c) =~= ls.subrange(start as int, i + 1));
        } else {
            let piece = l.substring_char(start, i);
            let ghost before = strings_view(out@);
            if two_bytes_or_more(piece) {
                out.push(piece.to_string());
                assert(strings_view(out@) =~= before + kept(piece@));
            } else {
                assert(strings_view(out@) =~= before + kept(piece@));
            }
            assert(ls.subrange(i + 1, i + 1) =~= Seq::<char>::empty());
            start = i + 1;
        }
        i = i + 1;
    }
    let piece = l.substring_char(start, n);
    let ghost before = strings_view(out@);
    assert(ls.skip(n as int) =~= Seq::<char>::empty());
    if two_bytes_or_more(piece) {
        out.push(piece.to_string());
    }
    assert(strings_view(out@) =~= before + kept(piece@));
    out
}

/// Stem a word: lower-case it, then strip the first suffix rule that
/// applies (`ing`, `tion`, `ness`, `ment`, `ly`, `es`, `ed`, or an `s` not
/// after another `s`), each only on words long enough.
fn term(word: &str) -> (r: String)
    ensures
        r@ == term_of(word@),
{
    let lw = to_lowercase(word);
    let w = lw.as_str();
    let bytes = w.as_bytes();
    assert(bytes@ == key_bytes(w@));
    let n = bytes.len();
    if str_ends_with(w, "ing") && n > 5 {
        strip_suffix(w, "ing")
    } else if str_ends_with(w, "tion") && n > 6 {
        strip_suffix(w, "tion")
    } else if str_ends_with(w, "ness") && n > 6 {
        strip_suffix(w, "ness")
    } else if str_ends_with(w, "ment") && n > 6 {
        strip_suffix(w, "ment")
    } else if str_ends_with(w, "ly") && n > 4 {
        strip_suffix(w, "ly")
    } else if str_ends_with(w, "es") && n > 4 {
        strip_suffix(w, "es")
    } else if str_ends_with(w, "ed") && n > 4 {
        strip_suffix(w, "ed")
    } else if str_ends_with(w, "s") && !str_ends_with(w, "ss") && n > 3 {
        strip_suffix(w, "s")
    } else {
        lw
    }
}

/// One occurrence list of a token in a document field.
#[derive(Debug, Clone)]
pub struct Posting {
    /// Document id.
    pub doc_id: [u8; 16],
    /// Field that contains the token.
    pub field_id: u32,
    /// Number of times the token appears in the field.
    pub term_frequency: u32,
    /// Positions within the field.
    pub positions: Vec<u32>,
}

/// What a posting holds, as plain values: document id, field, term
/// frequency and positions.
pub open spec fn posting_view(p: Posting) -> (Seq<u8>, u32, u32, Seq<u32>) {
    (p.doc_id@, p.field_id, p.term_frequency, p.positions@)
}

/// The views of a list of postings.
pub open spec fn postings_view(v: Seq<Posting>) -> Seq<(Seq<u8>, u32, u32, Seq<u32>)> {
    v.map_values(|p: Posting| posting_view(p))
}

/// The postings held under the term `t`; none when it is absent.
pub open spec fn postings_at(s: Seq<(String, Vec<Posting>)>, t: Seq<char>) -> Seq<(Seq<u8>, u32, u32, Seq<u32>)> {
    match lookup(s, key_bytes(t)) {
        Some(v) => postings_view(v@),
        None => Seq::empty(),
    }
}

/// The positions at which `t` stands in `terms`, in order.
pub open spec fn positions_in(terms: Seq<Seq<char>>, t: Seq<char>) -> Seq<u32>
    decreases terms.len(),
{
    if terms.len() == 0 {
        Seq::empty()
    } else {
        positions_in(terms.drop_last(), t) + if terms.last() == t {
            seq![(terms.len() - 1) as u32]
        } else {
            Seq::<u32>::empty()
        }
    }
}

/// The posting a document adds for the term `t` of its terms `terms`.
pub open spec fn new_posting(doc_id: Seq<u8>, field_id: u32, terms: Seq<Seq<char>>, t: Seq<char>) -> (
    Seq<u8>,
    u32,
    u32,
    Seq<u32>,
) {
    (doc_id, field_id, positions_in(terms, t).len() as u32, positions_in(terms, t))
}

/// `s` without the postings of document `d`, in order.
pub open spec fn without_doc(s: Seq<(Seq<u8>, u32, u32, Seq<u32>)>, d: Seq<u8>) -> Seq<(Seq<u8>, u32, u32, Seq<u32>)>
    decreases s.len(),
{
    if s.len() == 0 {
        s
    } else if s.last().0 == d {
        without_doc(s.drop_last(), d)
    } else {
        without_doc(s.drop_last(), d).push(s.last())
    }
}

/// `s.push(x)` holds `t` exactly when `s` does or `x` is `t`.
proof fn lemma_push_contains<A>(s: Seq<A>, x: A, t: A)
    ensures
        s.push(x).contains(t) == (s.contains(t) || x == t),
{
    if s.contains(t) {
        let i = choose|i: int| 0 <= i < s.len() && s[i] == t;
        assert(s.push(x)[i] == t);
    }
    if x == t {
        assert(s.push(x)[s.len() as int] == t);
    }
    if s.push(x).contains(t) {
        let i = choose|i: int| 0 <= i < s.push(x).len() && s.push(x)[i] == t;
        if i < s.len() {
            assert(s[i] == t);
        }
    }
}

/// Group the positions of each term: the map holds, under every term of
/// `terms`, the positions at which it stands.
fn group_positions(terms: &Vec<String>) -> (g: FieldMap<Vec<u32>>)
    ensures
        keys_sorted(g.entries@),
        forall|t: Seq<char>| #![trigger lookup(g.entries@, key_bytes(t))]
            match lookup(g.entries@, key_bytes(t)) {
                Some(v) => strings_view(terms@).contains(t) && v@ == positions_in(strings_view(terms@), t),
                None => !strings_view(terms@).contains(t),
            },
{
    let ghost all = strings_view(terms@);
    let mut g: FieldMap<Vec<u32>> = FieldMap::new();
    let mut pos: usize = 0;
    assert(all.take(0) =~= Seq::<Seq<char>>::empty());
    while pos < terms.len()
        invariant
            pos <= terms.len(),
            all == strings_view(terms@),
            keys_sorted(g.entries@),
            forall|t: Seq<char>| #![trigger lookup(g.entries@, key_bytes(t))]
                match lookup(g.entries@, key_bytes(t)) {
                    Some(v) => all.take(pos as int).contains(t) && v@ == positions_in(all.take(pos as int), t),
                    None => !all.take(pos as int).contains(t),
                },
        decreases terms.len() - pos,
    {
        let term = &terms[pos];
        let ghost s0 = g.entries@;
        let ghost k = key_bytes(term@);
        let ghost before = all.take(pos as int);
        let ghost after = all.take(pos + 1);
        proof {
            lemma_find_key(s0, k, 0);
        }
        let mut list = match g.remove(term.as_str()) {
            Some(l) => l,
            None => Vec::new(),
        };
        let ghost s1 = g.entries@;
        let ghost old_list = list@;
        list.push(pos as u32);
        let key = term.clone();
        let ghost key_g = key;
        let ghost list_g = list;
        g.insert(key, list);
        proof {
            assert(after.drop_last() =~= before);
            assert(after =~= before.push(term@));
            assert(positions_in(after, term@) == positions_in(before, term@).push(pos as u32));
            if find_key(s0, k, 0) is Some {
                lemma_lookup_after_remove(s0, k, k);
            }
            lemma_lookup_after_insert(s1, key_g, list_g, k);
            assert forall|t: Seq<char>| #![trigger lookup(g.entries@, key_bytes(t))]
                match lookup(g.entries@, key_bytes(t)) {
                    Some(v) => after.contains(t) && v@ == positions_in(after, t),
                    None => !after.contains(t),
                } by {
                lemma_push_contains(before, term@, t);
                if key_bytes(t) == k {
                    lemma_key_bytes_injective(t, term@);
                    if find_key(s0, k, 0) is None {
                        assert(lookup(s0, k) is None);
                        assert(old_list =~= Seq::<u32>::empty());
                        assert(!before.contains(t));
                        assert(positions_in(before, t) =~= Seq::<u32>::empty()) by {
                            lemma_positions_absent(before, t);
                        }
                    }
                } else {
                    if find_key(s0, k, 0) is Some {
                        lemma_lookup_after_remove(s0, k, key_bytes(t));
                    }
                    lemma_lookup_after_insert(s1, key_g, list_g, key_bytes(t));
                    assert(term@ != t);
                    assert(positions_in(after, t) == positions_in(before, t));
                }
            }
        }
        pos = pos + 1;
    }
    assert(all.take(terms.len() as int) =~= all);
    g
}

/// Full-text index: each term maps to the postings of the documents that
/// hold it, in the order they were indexed.
pub struct FullTextIndex {
    index: FieldMap<Vec<Posting>>,
    doc_count: u64,
    /// Index name.
    pub name: String,
    /// Indexed fields.
    pub fields: Vec<String>,
}

impl FullTextIndex {
    /// The term entries, ordered by the bytes of the term.
    pub closed spec fn entries(&self) -> Seq<(String, Vec<Posting>)> {
        self.index.entries@
    }

    /// How many documents were indexed.
    pub closed spec fn documents(&self) -> u64 {
        self.doc_count
    }

    /// The index name.
    pub closed spec fn index_name(&self) -> String {
        self.name
    }

    /// The indexed fields.
    pub closed spec fn index_fields(&self) -> Vec<String> {
        self.fields
    }

    /// Terms in ascending byte order, each with at least one posting.
    pub open spec fn wf(&self) -> bool {
        &&& keys_sorted(self.entries())
        &&& forall|i: int| 0 <= i < self.entries().len() ==> (#[trigger] self.entries()[i]).1@.len() > 0
    }

    /// The postings of the term `t`.
    pub open spec fn postings(&self, t: Seq<char>) -> Seq<(Seq<u8>, u32, u32, Seq<u32>)> {
        postings_at(self.entries(), t)
    }

    /// Whether the index holds the term `t`.
    pub open spec fn has_term(&self, t: Seq<char>) -> bool {
        lookup(self.entries(), key_bytes(t)) is Some
    }

    /// An empty index.
    pub fn new(name: String, fields: Vec<String>) -> (r: Self)
        ensures
            r.wf(),
            r.index_name() == name,
            r.index_fields() == fields,
            r.documents() == 0,
            r.entries().len() == 0,
    {
        FullTextIndex { index: FieldMap::new(), doc_count: 0, name, fields }
    }

    /// Tokenize text: lower-case it and cut it at every char that is not
    /// alphanumeric; pieces shorter than two UTF-8 bytes are dropped.
    pub fn tokenize(text: &str) -> (r: Vec<String>)
        ensures
            strings_view(r@) == text_tokens(text@),
    {
        tokens(text)
    }

    /// Simple English stemmer (suffix stripping) on the lower-cased word.
    pub fn stem(word: &str) -> (r: String)
        ensures
            r@ == term_of(word@),
    {
        term(word)
    }

    /// How many documents were indexed.
    pub fn doc_count(&self) -> (n: u64)
        ensures
            n == self.documents(),
    {
        self.doc_count
    }

    /// The postings of a term, if the index holds it.
    pub fn postings_of(&self, term: &str) -> (r: Option<&Vec<Posting>>)
        ensures
            match lookup(self.entries(), key_bytes(term@)) {
                Some(v) => r == Some(&v),
                None => r is None,
            },
    {
        proof {
            lemma_find_key(self.index.entries@, key_bytes(term@), 0);
        }
        self.index.get(term)
    }

    /// Append `posting` to the list of `term`, creating the list if absent.
    fn add_posting(&mut self, term: &String, posting: Posting)
        requires
            old(self).wf(),
        ensures
            final(self).wf(),
            final(self).documents() == old(self).documents(),
            final(self).index_name() == old(self).index_name(),
            final(self).index_fields() == old(self).index_fields(),
            final(self).postings(term@) == old(self).postings(term@).push(posting_view(posting)),
            final(self).has_term(term@),
            forall|t: Seq<char>| #![trigger final(self).postings(t)]
                t != term@ ==> final(self).postings(t) == old(self).postings(t),
            forall|t: Seq<char>| #![trigger final(self).has_term(t)]
                t != term@ ==> final(self).has_term(t) == old(self).has_term(t),
    {
        let ghost s0 = self.index.entries@;
        let ghost k = key_bytes(term@);
        proof {
            lemma_find_key(s0, k, 0);
        }
        let mut list = match self.index.remove(term.as_str()) {
            Some(l) => l,
            None => Vec::new(),
        };
        let ghost s1 = self.index.entries@;
        let ghost old_list = list@;
        list.push(posting);
        let key = term.clone();
        let ghost key_g = key;
        let ghost list_g = list;
        self.index.insert(key, list);
        proof {
            let s2 = self.index.entries@;
            if find_key(s0, k, 0) is Some {
                lemma_lookup_after_remove(s0, k, k);
            } else {
                assert(old_list =~= Seq::<Posting>::empty());
            }
            lemma_lookup_after_insert(s1, key_g, list_g, k);
            assert(postings_view(list_g@) =~= postings_view(old_list).push(posting_view(posting)));
            assert forall|i: int| 0 <= i < s1.len() implies (#[trigger] s1[i]).1@.len() > 0 by {
                let j = find_key(s0, k, 0)->0 as int;
                if find_key(s0, k, 0) is Some {
                    if i < j {
                        assert(s1[i] == s0[i]);
                    } else {
                        assert(s1[i] == s0[i + 1]);
                    }
                } else {
                    assert(s1[i] == s0[i]);
                }
            }
            crate::format::obe::value::lemma_lower_bound(s1, k, 0);
            assert forall|i: int| 0 <= i < s2.len() implies (#[trigger] s2[i]).1@.len() > 0 by {
                let j = crate::format::obe::value::lower_bound(s1, k, 0);
                if j < s1.len() && key_bytes(s1[j as int].0@) == k {
                    if i != j {
                        assert(s2[i] == s1[i]);
                    }
                } else {
                    if i < j {
                        assert(s2[i] == s1[i]);
                    } else if i > j {
                        assert(s2[i] == s1[i - 1]);
                    }
                }
            }
            assert forall|t: Seq<char>| t != term@ implies #[trigger] lookup(s2, key_bytes(t)) == lookup(s0, key_bytes(t)) by {
                if key_bytes(t) == k {
                    lemma_key_bytes_injective(t, term@);
                }
                if find_key(s0, k, 0) is Some {
                    lemma_lookup_after_remove(s0, k, key_bytes(t));
                }
                lemma_lookup_after_insert(s1, key_g, list_g, key_bytes(t));
            }
            assert forall|t: Seq<char>| t != term@ implies #[trigger] postings_at(s2, t) == postings_at(s0, t) by {
                assert(lookup(s2, key_bytes(t)) == lookup(s0, key_bytes(t)));
            }
        }
    }

    /// Remove every posting of document `doc_id`; a term left without
    /// postings leaves the index.
    pub fn remove_document(&mut self, doc_id: &[u8; 16])
        requires
            old(self).wf(),
        ensures
            final(self).wf(),
            final(self).documents() == old(self).documents(),
            final(self).index_name() == old(self).index_name(),
            final(self).index_fields() == old(self).index_fields(),
            forall|t: Seq<char>| #![trigger final(self).postings(t)]
                final(self).postings(t) == without_doc(old(self).postings(t), doc_id@),
            forall|t: Seq<char>| #![trigger final(self).has_term(t)]
                final(self).has_term(t) == (without_doc(old(self).postings(t), doc_id@).len() > 0),
    {
        let ghost start = *self;
        let ghost s0 = self.index.entries@;
        let mut keys: Vec<String> = Vec::new();
        let mut i: usize = 0;
        while i < self.index.entries.len()
            invariant
                self.index.entries@ == s0,
                i <= s0.len(),
                keys@.len() == i,
                forall|j: int| 0 <= j < i ==> (#[trigger] keys@[j])@ == s0[j].0@,
            decreases s0.len() - i,
        {
            let k = self.index.entries[i].0.clone();
            keys.push(k);
            i = i + 1;
        }
        let mut i: usize = 0;
        while i < keys.len()
            invariant
                keys@.len() == s0.len(),
                forall|j: int| 0 <= j < s0.len() ==> (#[trigger] keys@[j])@ == s0[j].0@,
                keys_sorted(s0),
                start.entries() == s0,
                start.wf(),
                i <= keys@.len(),
                self.wf(),
                self.documents() == start.documents(),
                self.index_name() == start.index_name(),
                self.index_fields() == start.index_fields(),
                forall|t: Seq<char>| #![trigger self.postings(t)]
                    self.postings(t) == if exists|j: int| 0 <= j < i && keys@[j]@ == t {
                        without_doc(start.postings(t), doc_id@)
                    } else {
                        start.postings(t)
                    },
                forall|t: Seq<char>| #![trigger self.has_term(t)]
                    self.has_term(t) == if exists|j: int| 0 <= j < i && keys@[j]@ == t {
                        without_doc(start.postings(t), doc_id@).len() > 0
                    } else {
                        start.has_term(t)
                    },
            decreases keys@.len() - i,
        {
            let key = &keys[i];
            let ghost k = key_bytes(key@);
            let ghost m0 = self.index.entries@;
            let ghost mid = *self;
            proof {
                lemma_find_sorted(s0, k, i as int);
                assert forall|j: int| 0 <= j < i implies keys@[j]@ != key@ by {
                    assert(crate::format::obe::value::bytes_lt(key_bytes(s0[j].0@), key_bytes(s0[i as int].0@)));
                    if keys@[j]@ == key@ {
                        crate::format::obe::value::lemma_bytes_lt_irreflexive(k);
                    }
                }
                assert(!(exists|j: int| 0 <= j < i && keys@[j]@ == key@));
                assert(self.postings(key@) == start.postings(key@));
                assert(self.has_term(key@) == start.has_term(key@));
                lemma_find_key(m0, k, 0);
            }
            let removed = self.index.remove(key.as_str());
            let ghost m1 = self.index.entries@;
            proof {
                lemma_lookup_after_remove(m0, k, k);
                assert forall|t: Seq<char>| key_bytes(t) != k implies #[trigger] lookup(m1, key_bytes(t)) == lookup(m0, key_bytes(t)) by {
                    lemma_lookup_after_remove(m0, k, key_bytes(t));
                }
                assert forall|j: int| 0 <= j < m1.len() implies (#[trigger] m1[j]).1@.len() > 0 by {
                    let r = find_key(m0, k, 0)->0 as int;
                    if j < r {
                        assert(m1[j] == m0[j]);
                    } else {
                        assert(m1[j] == m0[j + 1]);
                    }
                }
            }
            match removed {
                Some(list) => {
                    let kept_list = drop_doc(list, doc_id);
                    if kept_list.len() > 0 {
                        let k2 = key.clone();
                        let ghost k2g = k2;
                        let ghost lg = kept_list;
                        self.index.insert(k2, kept_list);
                        proof {
                            let m2 = self.index.entries@;
                            lemma_lookup_after_insert(m1, k2g, lg, k);
                            crate::format::obe::value::lemma_lower_bound(m1, k, 0);
                            assert forall|j: int| 0 <= j < m2.len() implies (#[trigger] m2[j]).1@.len() > 0 by {
                                let b = crate::format::obe::value::lower_bound(m1, k, 0);
                                if b < m1.len() && key_bytes(m1[b as int].0@) == k {
                                    if j != b {
                                        assert(m2[j] == m1[j]);
                                    }
                                } else {
                                    if j < b {
                                        assert(m2[j] == m1[j]);
                                    } else if j > b {
                                        assert(m2[j] == m1[j - 1]);
                                    }
                                }
                            }
                            assert forall|t: Seq<char>| key_bytes(t) != k implies #[trigger] lookup(m2, key_bytes(t)) == lookup(m0, key_bytes(t)) by {
                                lemma_lookup_after_insert(m1, k2g, lg, key_bytes(t));
                            }
                        }
                    }
                },
                None => {
                    assert(false);
                },
            }
            proof {
                assert forall|t: Seq<char>| #![trigger self.postings(t)]
                    self.postings(t) == if exists|j: int| 0 <= j < i + 1 && keys@[j]@ == t {
                        without_doc(start.postings(t), doc_id@)
                    } else {
                        start.postings(t)
                    } by {
                    if key_bytes(t) == k {
                        lemma_key_bytes_injective(t, key@);
                        assert(keys@[i as int]@ == t);
                    } else {
                        assert(t != key@);
                        assert(lookup(self.index.entries@, key_bytes(t)) == lookup(m0, key_bytes(t)));
                        assert(self.postings(t) == mid.postings(t));
                        if exists|j: int| 0 <= j < i + 1 && keys@[j]@ == t {
                            let j = choose|j: int| 0 <= j < i + 1 && keys@[j]@ == t;
                            assert(j != i);
                        }
                    }
                }
                assert forall|t: Seq<char>| #![trigger self.has_term(t)]
                    self.has_term(t) == if exists|j: int| 0 <= j < i + 1 && keys@[j]@ == t {
                        without_doc(start.postings(t), doc_id@).len() > 0
                    } else {
                        start.has_term(t)
                    } by {
                    if key_bytes(t) == k {
                        lemma_key_bytes_injective(t, key@);
                        assert(keys@[i as int]@ == t);
                        assert(self.postings(t) == without_doc(start.postings(t), doc_id@));
                    } else {
                        assert(t != key@);
                        assert(lookup(self.index.entries@, key_bytes(t)) == lookup(m0, key_bytes(t)));
                        assert(self.has_term(t) == mid.has_term(t));
                        if exists|j: int| 0 <= j < i + 1 && keys@[j]@ == t {
                            let j = choose|j: int| 0 <= j < i + 1 && keys@[j]@ == t;
                            assert(j != i);
                        }
                    }
                }
            }
            i = i + 1;
        }
        proof {
            assert forall|t: Seq<char>| #![trigger self.postings(t)]
                self.postings(t) == without_doc(start.postings(t), doc_id@) by {
                if !(exists|j: int| 0 <= j < keys@.len() && keys@[j]@ == t) {
                    lemma_find_key(s0, key_bytes(t), 0);
                    if find_key(s0, key_bytes(t), 0) is Some {
                        let j = find_key(s0, key_bytes(t), 0)->0 as int;
                        lemma_key_bytes_injective(t, s0[j].0@);
                        assert(keys@[j]@ == t);
                    }
                    assert(start.postings(t) =~= Seq::empty());
                }
            }
            assert forall|t: Seq<char>| #![trigger self.has_term(t)]
                self.has_term(t) == (without_doc(start.postings(t), doc_id@).len() > 0) by {
                if !(exists|j: int| 0 <= j < keys@.len() && keys@[j]@ == t) {
                    lemma_find_key(s0, key_bytes(t), 0);
                    if find_key(s0, key_bytes(t), 0) is Some {
                        let j = find_key(s0, key_bytes(t), 0)->0 as int;
                        lemma_key_bytes_injective(t, s0[j].0@);
                        assert(keys@[j]@ == t);
                    }
                    assert(start.postings(t) =~= Seq::empty());
                }
            }
        }
    }

    /// Index a document's text: every term of the text gains a posting of
    /// `doc_id` and `field_id` with the positions where the term stands.
    pub fn index_document(&mut self, doc_id: [u8; 16], field_id: u32, text: &str) -> (r: OvnResult<()>)
        requires
            old(self).wf(),
            old(self).documents() < u64::MAX,
        ensures
            r is Ok,
            final(self).wf(),
            final(self).documents() == old(self).documents() + 1,
            final(self).index_name() == old(self).index_name(),
            final(self).index_fields() == old(self).index_fields(),
            forall|t: Seq<char>| #![trigger final(self).postings(t)]
                final(self).postings(t) == if text_terms(text@).contains(t) {
                    old(self).postings(t).push(new_posting(doc_id@, field_id, text_terms(text@), t))
                } else {
                    old(self).postings(t)
                },
            forall|t: Seq<char>| #![trigger final(self).has_term(t)]
                final(self).has_term(t) == (old(self).has_term(t) || text_terms(text@).contains(t)),
    {
        let ghost terms = text_terms(text@);
        let ghost start = *self;
        let tokens = tokens(text);
        let mut terms_v: Vec<String> = Vec::new();
        let mut i: usize = 0;
        while i < tokens.len()
            invariant
                i <= tokens.len(),
                strings_view(tokens@) == text_tokens(text@),
                terms == text_terms(text@),
                strings_view(terms_v@) == terms.take(i as int),
            decreases tokens.len() - i,
        {
            let st = term(tokens[i].as_str());
            let ghost before = strings_view(terms_v@);
            terms_v.push(st);
            proof {
                assert(strings_view(terms_v@) =~= before.push(st@));
                assert(terms.take(i + 1) =~= terms.take(i as int).push(terms[i as int]));
            }
            i = i + 1;
        }
        assert(terms.take(tokens.len() as int) =~= terms);
        let mut groups = group_positions(&terms_v);
        self.doc_count = self.doc_count + 1;
        let mut pos: usize = 0;
        assert(terms.take(0) =~= Seq::<Seq<char>>::empty());
        while pos < terms_v.len()
            invariant
                pos <= terms_v.len(),
                strings_view(terms_v@) == terms,
                self.wf(),
                self.documents() == start.documents() + 1,
                self.index_name() == start.index_name(),
                self.index_fields() == start.index_fields(),
                keys_sorted(groups.entries@),
                forall|t: Seq<char>| #![trigger lookup(groups.entries@, key_bytes(t))]
                    match lookup(groups.entries@, key_bytes(t)) {
                        Some(v) => terms.contains(t) && !terms.take(pos as int).contains(t) && v@ == positions_in(terms, t),
                        None => !terms.contains(t) || terms.take(pos as int).contains(t),
                    },
                forall|t: Seq<char>| #![trigger self.postings(t)]
                    self.postings(t) == if terms.take(pos as int).contains(t) {
                        start.postings(t).push(new_posting(doc_id@, field_id, terms, t))
                    } else {
                        start.postings(t)
                    },
                forall|t: Seq<char>| #![trigger self.has_term(t)]
                    self.has_term(t) == (start.has_term(t) || terms.take(pos as int).contains(t)),
            decreases terms_v.len() - pos,
        {
            let term = &terms_v[pos];
            let ghost g0 = groups.entries@;
            let ghost k = key_bytes(term@);
            let ghost before = terms.take(pos as int);
            let ghost mid = *self;
            proof {
                lemma_find_key(g0, k, 0);
                assert(lookup(g0, key_bytes(term@)) == lookup(groups.entries@, key_bytes(term@)));
                assert(terms.take(pos + 1) =~= before.push(term@));
                assert(terms[pos as int] == term@);
                assert(terms.contains(term@));
            }
            match groups.remove(term.as_str()) {
                Some(positions) => {
                    proof {
                        lemma_lookup_after_remove(g0, k, k);
                    }
                    let ghost gp = positions@;
                    let tf = positions.len() as u32;
                    let posting = Posting { doc_id, field_id, term_frequency: tf, positions };
                    self.add_posting(term, posting);
                    proof {
                        assert(posting_view(posting) == new_posting(doc_id@, field_id, terms, term@));
                        assert forall|t: Seq<char>| #![trigger lookup(groups.entries@, key_bytes(t))]
                            match lookup(groups.entries@, key_bytes(t)) {
                                Some(v) => terms.contains(t) && !terms.take(pos + 1).contains(t) && v@ == positions_in(terms, t),
                                None => !terms.contains(t) || terms.take(pos + 1).contains(t),
                            } by {
                            lemma_push_contains(before, term@, t);
                            if key_bytes(t) == k {
                                lemma_key_bytes_injective(t, term@);
                            } else {
                                lemma_lookup_after_remove(g0, k, key_bytes(t));
                            }
                        }
                        assert forall|t: Seq<char>| #![trigger self.postings(t)]
                            self.postings(t) == if terms.take(pos + 1).contains(t) {
                                start.postings(t).push(new_posting(doc_id@, field_id, terms, t))
                            } else {
                                start.postings(t)
                            } by {
                            lemma_push_contains(before, term@, t);
                            if t != term@ {
                                assert(self.postings(t) == mid.postings(t));
                            }
                        }
                        assert forall|t: Seq<char>| #![trigger self.has_term(t)]
                            self.has_term(t) == (start.has_term(t) || terms.take(pos + 1).contains(t)) by {
                            lemma_push_contains(before, term@, t);
                            if t != term@ {
                                assert(self.has_term(t) == mid.has_term(t));
                            }
                        }
                    }
                },
                None => {
                    proof {
                        assert(before.contains(term@));
                        assert forall|t: Seq<char>| #![trigger lookup(groups.entries@, key_bytes(t))]
                            match lookup(groups.entries@, key_bytes(t)) {
                                Some(v) => terms.contains(t) && !terms.take(pos + 1).contains(t) && v@ == positions_in(terms, t),
                                None => !terms.contains(t) || terms.take(pos + 1).contains(t),
                            } by {
                            lemma_push_contains(before, term@, t);
                        }
                        assert forall|t: Seq<char>| #![trigger self.postings(t)]
                            self.postings(t) == if terms.take(pos + 1).contains(t) {
                                start.postings(t).push(new_posting(doc_id@, field_id, terms, t))
                            } else {
                                start.postings(t)
                            } by {
                            lemma_push_contains(before, term@, t);
                        }
                        assert forall|t: Seq<char>| #![trigger self.has_term(t)]
                            self.has_term(t) == (start.has_term(t) || terms.take(pos + 1).contains(t)) by {
                            lemma_push_contains(before, term@, t);
                        }
                    }
                },
            }
            pos = pos + 1;
        }
        assert(terms.take(terms_v.len() as int) =~= terms);
        Ok(())
    }
}

/// The postings of `list` whose document is not `d`, in order.
fn drop_doc(list: Vec<Posting>, d: &[u8; 16]) -> (r: Vec<Posting>)
    ensures
        postings_view(r@) == without_doc(postings_view(list@), d@),
{
    let ghost orig = list@;
    let mut list = list;
    let n0 = list.len();
    let mut out: Vec<Posting> = Vec::new();
    let mut k: usize = 0;
    assert(postings_view(orig).take(0) =~= Seq::empty());
    while list.len() > 0
        invariant
            k <= orig.len(),
            orig.len() == n0,
            list@ == orig.skip(k as int),
            postings_view(out@) == without_doc(postings_view(orig).take(k as int), d@),
        decreases list.len(),
    {
        let p = list.remove(0);
        let ghost pre = postings_view(out@);
        let ghost taken = postings_view(orig).take(k + 1);
        proof {
            assert(p == orig[k as int]);
            assert(list@ =~= orig.skip(k + 1));
            assert(taken.drop_last() =~= postings_view(orig).take(k as int));
            assert(taken.last() == posting_view(p));
        }
        if !bytes_equal(&p.doc_id, d) {
            out.push(p);
            assert(postings_view(out@) =~= pre.push(posting_view(p)));
        }
        k = k + 1;
    }
    assert(postings_view(orig).take(k as int) =~= postings_view(orig));
    out
}

/// Postings of other documents are left as they are by `without_doc`.
pub proof fn lemma_without_absent_doc(s: Seq<(Seq<u8>, u32, u32, Seq<u32>)>, d: Seq<u8>)
    requires
        forall|i: int| 0 <= i < s.len() ==> (#[trigger] s[i]).0 != d,
    ensures
        without_doc(s, d) == s,
    decreases s.len(),
{
    if s.len() > 0 {
        lemma_without_absent_doc(s.drop_last(), d);
        assert(s.drop_last().push(s.last()) =~= s);
    }
}

/// Removing a document right after indexing it, when the index held no
/// posting of it before, gives every term back its postings: the term's
/// list either did not change or gained one posting of that document, and
/// `remove_document` drops exactly that posting.
pub proof fn lemma_remove_after_index(
    before: Seq<(Seq<u8>, u32, u32, Seq<u32>)>,
    added: (Seq<u8>, u32, u32, Seq<u32>),
    d: Seq<u8>,
)
    requires
        forall|i: int| 0 <= i < before.len() ==> (#[trigger] before[i]).0 != d,
        added.0 == d,
    ensures
        without_doc(before.push(added), d) == before,
        without_doc(before, d) == before,
{
    lemma_without_absent_doc(before, d);
    assert(before.push(added).drop_last() =~= before);
}

/// A term that never occurs has no positions.
proof fn lemma_positions_absent(terms: Seq<Seq<char>>, t: Seq<char>)
    requires
        !terms.contains(t),
    ensures
        positions_in(terms, t) == Seq::<u32>::empty(),
    decreases terms.len(),
{
    if terms.len() > 0 {
        assert(!terms.drop_last().contains(t)) by {
            if terms.drop_last().contains(t) {
                let i = choose|i: int| 0 <= i < terms.drop_last().len() && terms.drop_last()[i] == t;
                assert(terms[i] == t);
            }
        }
        assert(terms[terms.len() - 1] != t);
        lemma_positions_absent(terms.drop_last(), t);
    }
}

} // verus!
