//! The content-hash cache: for each codepoint sequence, the digest of the
//! source file that the item was last built from.
use vstd::prelude::*;
use crate::codepoints::{join_hex, lemma_sequence_round_trip, parse_hex, parse_sequence, sequence_to_hex};
use crate::digest::{content_digest, copy_bytes, digest_of, same_bytes};
use crate::emoji::{same_sequence, Emoji};
use crate::keyed::{keyed_map, lemma_keyed_map};
use crate::hexfmt::{all_hex, bytes_hex, hex_bytes, lemma_bytes_hex};

verus! {

#[verifier::external_type_specification]
#[verifier::external_body]
pub struct ExIoError(std::io::Error);

/// An error that can occur while checking an item against the cache.
#[derive(Debug)]
pub enum CheckError {
    /// The source file could not be read.
    Io(std::io::Error),
    /// The item carries no path of a source file.
    NoFileSpecified,
}

/// Relies on `hex::encode`: each byte as two lowercase hexadecimal digits.
#[verifier::external_body]
fn hex_encode(b: &[u8]) -> (r: String)
    ensures
        r@ == bytes_hex(b@),
{
    hex::encode(b)
}

/// Relies on `hex::decode`: the bytes of an even number of hexadecimal digits
/// of either case; any other text is refused.
#[verifier::external_body]
fn hex_decode(s: &str) -> (r: Option<Vec<u8>>)
    ensures
        r is Some <==> (s@.len() % 2 == 0 && all_hex(s@)),
        r matches Some(v) ==> v@ == hex_bytes(s@),
{
    hex::decode(s).ok()
}

/// The sequences of the entries.
pub open spec fn keys_of(e: Seq<(Vec<u32>, Vec<u8>)>) -> Seq<Seq<u32>> {
    e.map_values(entry_key())
}

/// The sequence of an entry.
pub open spec fn entry_key() -> spec_fn((Vec<u32>, Vec<u8>)) -> Seq<u32> {
    |x: (Vec<u32>, Vec<u8>)| x.0@
}

/// The digest of an entry.
pub open spec fn entry_digest() -> spec_fn((Vec<u32>, Vec<u8>)) -> Seq<u8> {
    |x: (Vec<u32>, Vec<u8>)| x.1@
}

/// The map that a list of entries denotes; a later entry wins over an earlier one.
pub open spec fn to_map(e: Seq<(Vec<u32>, Vec<u8>)>) -> Map<Seq<u32>, Seq<u8>> {
    keyed_map(e, entry_key(), entry_digest())
}

/// The rows that the entries are written as: the sequence, and the digest in hexadecimal.
pub open spec fn rows_of(e: Seq<(Vec<u32>, Vec<u8>)>) -> Seq<Seq<Seq<char>>> {
    e.map_values(|x: (Vec<u32>, Vec<u8>)| seq![join_hex(x.0@), bytes_hex(x.1@)])
}

/// The map that a list of written rows denotes when it is read back.
pub open spec fn text_rows_map(rows: Seq<Seq<Seq<char>>>) -> Map<Seq<u32>, Seq<u8>>
    decreases rows.len(),
{
    if rows.len() == 0 {
        Map::empty()
    } else {
        let m = text_rows_map(rows.drop_last());
        let row = rows.last();
        if row.len() >= 2 && row[1].len() % 2 == 0 && all_hex(row[1]) {
            m.insert(parse_sequence(row[0]), hex_bytes(row[1]))
        } else {
            m
        }
    }
}

/// The text of each field of each row.
pub open spec fn rows_view(rows: Seq<Vec<String>>) -> Seq<Seq<Seq<char>>> {
    rows.map_values(|row: Vec<String>| row@.map_values(|f: String| f@))
}

/// Whether `rows` are the entries of `m` written as text, in some order: each
/// row is a sequence of `m` with its digest, each sequence of `m` has a row,
/// and no two rows have the same sequence.
pub open spec fn rows_denote(rows: Seq<Seq<Seq<char>>>, m: Map<Seq<u32>, Seq<u8>>) -> bool {
    &&& forall|i: int| 0 <= i < rows.len() ==> m.contains_key(#[trigger] parse_sequence(rows[i][0]))
        && rows[i] == seq![join_hex(parse_sequence(rows[i][0])), bytes_hex(m[parse_sequence(rows[i][0])])]
    &&& forall|k: Seq<u32>| #[trigger] m.contains_key(k) ==> exists|i: int| 0 <= i < rows.len()
        && #[trigger] rows[i] == seq![join_hex(k), bytes_hex(m[k])]
    &&& forall|i: int, j: int| 0 <= i < rows.len() && 0 <= j < rows.len() && i != j
        ==> #[trigger] rows[i][0] != #[trigger] rows[j][0]
}

/// Writing a cache as rows, in any order, and reading the rows back gives
/// the same cache: the same sequences, each with the same digest.
pub proof fn lemma_cache_round_trip(rows: Seq<Seq<Seq<char>>>, m: Map<Seq<u32>, Seq<u8>>)
    requires
        rows_denote(rows, m),
    ensures
        text_rows_map(rows) == m,
    decreases rows.len(),
{
    if rows.len() == 0 {
        assert forall|k: Seq<u32>| !m.contains_key(k) by {
            if m.contains_key(k) {
                let i = choose|i: int| 0 <= i < rows.len() && rows[i] == seq![join_hex(k), bytes_hex(m[k])];
            }
        }
        assert(m =~= Map::empty());
    } else {
        let n = rows.len() - 1;
        let p = rows.drop_last();
        let r = rows[n];
        let k = parse_sequence(r[0]);
        assert(m.contains_key(k));
        let rest = m.remove(k);
        lemma_sequence_round_trip(k);
        lemma_bytes_hex(m[k]);
        assert forall|i: int| 0 <= i < p.len() implies rest.contains_key(#[trigger] parse_sequence(p[i][0]))
            && p[i] == seq![join_hex(parse_sequence(p[i][0])), bytes_hex(rest[parse_sequence(p[i][0])])] by {
            assert(p[i] == rows[i]);
            let ki = parse_sequence(rows[i][0]);
            assert(m.contains_key(ki));
            assert(rows[i][0] != rows[n][0]);
            assert(rows[i][0] == join_hex(ki));
            assert(r[0] == join_hex(k));
            lemma_sequence_round_trip(ki);
            assert(ki != k);
        }
        assert forall|k2: Seq<u32>| #[trigger] rest.contains_key(k2) implies exists|i: int| 0 <= i < p.len()
            && #[trigger] p[i] == seq![join_hex(k2), bytes_hex(rest[k2])] by {
            assert(m.contains_key(k2) && k2 != k);
            let i = choose|i: int| 0 <= i < rows.len() && rows[i] == seq![join_hex(k2), bytes_hex(m[k2])];
            if i == n {
                lemma_sequence_round_trip(k2);
                assert(r[0] == join_hex(k2));
            }
            assert(p[i] == rows[i]);
        }
        assert forall|i: int, j: int| 0 <= i < p.len() && 0 <= j < p.len() && i != j
            implies #[trigger] p[i][0] != #[trigger] p[j][0] by {
            assert(p[i] == rows[i] && p[j] == rows[j]);
        }
        lemma_cache_round_trip(p, rest);
        assert(rows.drop_last() == p);
        assert(r[1] == bytes_hex(m[k]));
        assert(text_rows_map(rows) == rest.insert(k, m[k]));
        assert(rest.insert(k, m[k]) =~= m);
    }
}

proof fn lemma_rows_denote(e: Seq<(Vec<u32>, Vec<u8>)>)
    requires
        keys_of(e).no_duplicates(),
    ensures
        rows_denote(rows_of(e), to_map(e)),
{
    lemma_to_map(e);
    let rows = rows_of(e);
    let m = to_map(e);
    assert forall|i: int| 0 <= i < rows.len() implies m.contains_key(#[trigger] parse_sequence(rows[i][0]))
        && rows[i] == seq![join_hex(parse_sequence(rows[i][0])), bytes_hex(m[parse_sequence(rows[i][0])])] by {
        lemma_sequence_round_trip(e[i].0@);
        assert(keys_of(e)[i] == e[i].0@);
        assert(m[e[i].0@] == e[i].1@);
    }
    assert forall|k: Seq<u32>| #[trigger] m.contains_key(k) implies exists|i: int| 0 <= i < rows.len()
        && #[trigger] rows[i] == seq![join_hex(k), bytes_hex(m[k])] by {
        let i = keys_of(e).index_of(k);
        assert(e[i].0@ == k);
        assert(m[e[i].0@] == e[i].1@);
        assert(rows[i] == seq![join_hex(k), bytes_hex(m[k])]);
    }
    assert forall|i: int, j: int| 0 <= i < rows.len() && 0 <= j < rows.len() && i != j
        implies #[trigger] rows[i][0] != #[trigger] rows[j][0] by {
        assert(keys_of(e)[i] != keys_of(e)[j]);
        lemma_sequence_round_trip(e[i].0@);
        lemma_sequence_round_trip(e[j].0@);
    }
}

/// What reading a source file gave: its bytes, or nothing on an error.
pub open spec fn read_view(contents: Result<Vec<u8>, std::io::Error>) -> Option<Seq<u8>> {
    match contents {
        Ok(b) => Some(b@),
        Err(_) => None,
    }
}

/// An item is fresh when it has a source file, the cache holds a digest for
/// its sequence, and the file could be read and has exactly that digest.
pub open spec fn fresh_spec(cache: Map<Seq<u32>, Seq<u8>>, e: Emoji, contents: Option<Seq<u8>>) -> bool {
    &&& e.svg_path is Some
    &&& cache.contains_key(e.sequence@)
    &&& contents is Some
    &&& digest_of(contents->0) == cache[e.sequence@]
}

/// A map from codepoint sequences to the digests of their source files.
#[derive(Debug)]
pub struct FileHashes {
    entries: Vec<(Vec<u32>, Vec<u8>)>,
}

impl Default for FileHashes {
    fn default() -> (r: FileHashes)
        ensures
            r.wf(),
            r@ == Map::<Seq<u32>, Seq<u8>>::empty(),
    {
        FileHashes::new()
    }
}

proof fn lemma_to_map(e: Seq<(Vec<u32>, Vec<u8>)>)
    requires
        keys_of(e).no_duplicates(),
    ensures
        to_map(e).dom() == keys_of(e).to_set(),
        forall|i: int| 0 <= i < e.len() ==> #[trigger] to_map(e)[e[i].0@] == e[i].1@,
{
    lemma_keyed_map(e, entry_key(), entry_digest());
    assert forall|i: int| 0 <= i < e.len() implies #[trigger] to_map(e)[e[i].0@] == e[i].1@ by {
        assert(to_map(e)[entry_key()(e[i])] == entry_digest()(e[i]));
    }
}

impl View for FileHashes {
    type V = Map<Seq<u32>, Seq<u8>>;

    /// The cache as a map from sequences to digests.
    closed spec fn view(&self) -> Map<Seq<u32>, Seq<u8>> {
        to_map(self.entries@)
    }
}

impl FileHashes {
    /// No sequence occurs twice among the entries.
    pub closed spec fn wf(&self) -> bool {
        keys_of(self.entries@).no_duplicates()
    }

    /// Creates a new, empty cache.
    pub fn new() -> (r: FileHashes)
        ensures
            r.wf(),
            r@ == Map::<Seq<u32>, Seq<u8>>::empty(),
    {
        FileHashes { entries: Vec::new() }
    }

    fn find(&self, sequence: &Vec<u32>) -> (r: Option<usize>)
        requires
            self.wf(),
        ensures
            r is None <==> !self@.contains_key(sequence@),
            r is Some ==> r->0 < self.entries@.len() && self.entries@[r->0 as int].0@ == sequence@,
    {
        let mut i: usize = 0;
        while i < self.entries.len()
            invariant
                i <= self.entries@.len(),
                self.wf(),
                forall|j: int| 0 <= j < i ==> self.entries@[j].0@ != sequence@,
            decreases self.entries.len() - i,
        {
            if same_sequence(&self.entries[i].0, sequence) {
                proof {
                    lemma_to_map(self.entries@);
                    assert(keys_of(self.entries@)[i as int] == sequence@);
                }
                return Some(i);
            }
            i = i + 1;
        }
        proof {
            lemma_to_map(self.entries@);
            if self@.contains_key(sequence@) {
                let k = keys_of(self.entries@).index_of(sequence@);
                assert(self.entries@[k].0@ == sequence@);
            }
        }
        None
    }

    /// The number of sequences in the cache.
    pub fn len(&self) -> (r: usize)
        requires
            self.wf(),
        ensures
            r == self@.len(),
    {
        proof {
            lemma_to_map(self.entries@);
            keys_of(self.entries@).unique_seq_to_set();
        }
        self.entries.len()
    }

    /// Whether the cache is empty.
    pub fn is_empty(&self) -> (r: bool)
        requires
            self.wf(),
        ensures
            r == (self@.len() == 0),
    {
        self.len() == 0
    }

    /// Whether the cache holds a digest for the sequence.
    pub fn contains(&self, sequence: &Vec<u32>) -> (r: bool)
        requires
            self.wf(),
        ensures
            r == self@.contains_key(sequence@),
    {
        self.find(sequence).is_some()
    }

    /// The digest that the cache holds for the sequence.
    pub fn get(&self, sequence: &Vec<u32>) -> (r: Option<&Vec<u8>>)
        requires
            self.wf(),
        ensures
            r is Some <==> self@.contains_key(sequence@),
            r is Some ==> r->0@ == self@[sequence@],
    {
        proof { lemma_to_map(self.entries@); }
        match self.find(sequence) {
            Some(i) => Some(&self.entries[i].1),
            None => None,
        }
    }

    /// Stores `hash` for the sequence; returns the digest it replaces, if any.
    fn insert_entry(&mut self, sequence: Vec<u32>, hash: Vec<u8>) -> (r: Option<Vec<u8>>)
        requires
            old(self).wf(),
        ensures
            final(self).wf(),
            final(self)@ == old(self)@.insert(sequence@, hash@),
            r is Some <==> old(self)@.contains_key(sequence@),
            r is Some ==> r->0@ == old(self)@[sequence@],
    {
        proof { lemma_to_map(self.entries@); }
        let ghost k = sequence@;
        let ghost v = hash@;
        match self.find(&sequence) {
            Some(i) => {
                let ghost e0 = self.entries@;
                let previous = self.entries[i].1.clone();
                self.entries.set(i, (sequence, hash));
                proof {
                    let e1 = self.entries@;
                    assert(keys_of(e1) =~= keys_of(e0));
                    lemma_to_map(e1);
                    assert(to_map(e1).dom() =~= to_map(e0).insert(k, v).dom()) by {
                        assert(keys_of(e0)[i as int] == k);
                    }
                    assert forall|key: Seq<u32>| #[trigger] to_map(e1).contains_key(key) implies
                        to_map(e1)[key] == to_map(e0).insert(k, v)[key] by {
                        let j = keys_of(e1).index_of(key);
                        assert(e1[j].0@ == key);
                        assert(to_map(e1)[e1[j].0@] == e1[j].1@);
                        if j != i {
                            assert(e0[j] == e1[j]);
                            assert(keys_of(e1)[j] != keys_of(e1)[i as int]);
                            assert(to_map(e0)[e0[j].0@] == e0[j].1@);
                        }
                    }
                    assert(to_map(e1) =~= to_map(e0).insert(k, v));
                }
                Some(previous)
            },
            None => {
                let ghost e0 = self.entries@;
                self.entries.push((sequence, hash));
                proof {
                    let e1 = self.entries@;
                    assert(e1.drop_last() =~= e0);
                    assert(keys_of(e1) =~= keys_of(e0).push(k));
                    assert(!keys_of(e0).contains(k)) by {
                        if keys_of(e0).contains(k) {
                            let j = keys_of(e0).index_of(k);
                            assert(e0[j].0@ == k);
                            assert(to_map(e0).dom().contains(k));
                        }
                    }
                }
                None
            },
        }
    }

    /// Reads a cache from its rows: the first column is the sequence, the
    /// second the digest in hexadecimal. Rows with fewer than two columns or a
    /// digest that is no hexadecimal byte string are skipped; a later row for a
    /// sequence wins over an earlier one.
    pub fn from_records(rows: Vec<Vec<String>>) -> (r: FileHashes)
        ensures
            r.wf(),
            r@ == text_rows_map(rows_view(rows@)),
    {
        let mut table = FileHashes::new();
        let mut i: usize = 0;
        while i < rows.len()
            invariant
                i <= rows@.len(),
                table.wf(),
                table@ == text_rows_map(rows_view(rows@.take(i as int))),
            decreases rows.len() - i,
        {
            let row = &rows[i];
            let ghost before = rows_view(rows@.take(i as int));
            proof {
                assert(rows_view(rows@.take(i + 1)) =~= before.push(rows_view(rows@)[i as int]));
                assert(rows_view(rows@.take(i + 1)).drop_last() =~= before);
            }
            if row.len() >= 2 {
                let sequence = parse_hex(row[0].as_str());
                match hex_decode(row[1].as_str()) {
                    Some(hash) => {
                        table.insert_entry(sequence, hash);
                    },
                    None => {},
                }
            }
            i = i + 1;
        }
        assert(rows@.take(i as int) =~= rows@);
        table
    }

    /// The rows that the cache is written as, one for each sequence, in no
    /// particular order: the sequence as lowercase hexadecimal codepoints
    /// separated by spaces, and the digest in lowercase hexadecimal.
    pub fn to_records(&self) -> (r: Vec<Vec<String>>)
        requires
            self.wf(),
        ensures
            rows_denote(rows_view(r@), self@),
    {
        let mut out: Vec<Vec<String>> = Vec::new();
        let mut i: usize = 0;
        while i < self.entries.len()
            invariant
                i <= self.entries@.len(),
                rows_view(out@) == rows_of(self.entries@.take(i as int)),
            decreases self.entries.len() - i,
        {
            let entry = &self.entries[i];
            let sequence = sequence_to_hex(&entry.0);
            let hash = hex_encode(entry.1.as_slice());
            let mut row: Vec<String> = Vec::new();
            row.push(sequence);
            row.push(hash);
            let ghost before = out@;
            out.push(row);
            proof {
                assert(out@ =~= before.push(row));
                assert(rows_view(out@) =~= rows_view(before).push(row@.map_values(|f: String| f@)));
                assert(row@.map_values(|f: String| f@) =~= seq![join_hex(entry.0@), bytes_hex(entry.1@)]);
                assert(self.entries@.take(i + 1) =~= self.entries@.take(i as int).push(self.entries@[i as int]));
                assert(rows_of(self.entries@.take(i + 1)) =~= rows_of(self.entries@.take(i as int)).push(
                    seq![join_hex(entry.0@), bytes_hex(entry.1@)]));
            }
            i = i + 1;
        }
        assert(self.entries@.take(i as int) =~= self.entries@);
        proof { lemma_rows_denote(self.entries@); }
        out
    }

    /// Decides whether an item is fresh, given what reading its source file gave.
    ///
    /// An item without a source path is an error, and so is a source file that
    /// could not be read. Otherwise an item without an entry in the cache is
    /// stale, and an item with an entry is fresh exactly when the content digest
    /// of the file equals the cached digest, compared in full.
    pub fn check(&self, emoji: &Emoji, contents: Result<Vec<u8>, std::io::Error>) -> (r: Result<bool, CheckError>)
        requires
            self.wf(),
        ensures
            (r matches Ok(true)) == fresh_spec(self@, *emoji, read_view(contents)),
            emoji.svg_path is None ==> r matches Err(CheckError::NoFileSpecified),
            emoji.svg_path is Some && contents is Err ==> r matches Err(CheckError::Io(_)),
            emoji.svg_path is Some && contents is Ok && !self@.contains_key(emoji.sequence@) ==> r matches Ok(false),
            emoji.svg_path is Some && self@.contains_key(emoji.sequence@) && contents is Ok
                ==> (r matches Ok(fresh) && fresh == (digest_of(contents->Ok_0@) == self@[emoji.sequence@])),
    {
        if emoji.svg_path.is_none() {
            return Err(CheckError::NoFileSpecified);
        }
        let bytes = match contents {
            Ok(bytes) => bytes,
            Err(e) => return Err(CheckError::Io(e)),
        };
        match self.get(&emoji.sequence) {
            None => Ok(false),
            Some(cached) => {
                let digest = content_digest(bytes.as_slice());
                Ok(same_bytes(cached.as_slice(), digest.as_slice()))
            },
        }
    }

    /// The content digest of an item's source file, given what reading it gave.
    pub fn hash(emoji: &Emoji, contents: Result<Vec<u8>, std::io::Error>) -> (r: Result<Vec<u8>, CheckError>)
        ensures
            emoji.svg_path is None ==> r matches Err(CheckError::NoFileSpecified),
            emoji.svg_path is Some && contents is Err ==> r matches Err(CheckError::Io(_)),
            emoji.svg_path is Some && contents is Ok
                ==> (r matches Ok(d) && d@ == digest_of(contents->Ok_0@) && d@.len() == 32),
    {
        if emoji.svg_path.is_none() {
            return Err(CheckError::NoFileSpecified);
        }
        match contents {
            Ok(bytes) => Ok(content_digest(bytes.as_slice())),
            Err(e) => Err(CheckError::Io(e)),
        }
    }

    /// Replaces (or inserts) the digest for a sequence.
    pub fn insert_digest(&mut self, sequence: &Vec<u32>, hash: &[u8])
        requires
            old(self).wf(),
        ensures
            final(self).wf(),
            final(self)@ == old(self)@.insert(sequence@, hash@),
    {
        let key = sequence.clone();
        let value = copy_bytes(hash);
        self.insert_entry(key, value);
    }

    /// Replaces (or inserts) the digest for an item; returns the digest it replaces, if any.
    pub fn update(&mut self, emoji: &Emoji, hash: &[u8]) -> (r: Option<Vec<u8>>)
        requires
            old(self).wf(),
        ensures
            final(self).wf(),
            final(self)@ == old(self)@.insert(emoji.sequence@, hash@),
            r is Some <==> old(self)@.contains_key(emoji.sequence@),
            r is Some ==> r->0@ == old(self)@[emoji.sequence@],
    {
        let key = emoji.sequence.clone();
        let value = copy_bytes(hash);
        self.insert_entry(key, value)
    }
}

} // verus!
