//! The key-value service: a datagram `key=value` stores a value, any other
//! datagram asks for one.
use vstd::prelude::*;
use vstd::utf8::*;
use crate::text::{
    contains_char, is_white_space, split_once_char, str_equal, string_from_utf8, trim, trim_end_chars,
    trim_start_chars, trimmed,
};

verus! {

/// The key whose value is fixed: it reports the service's version.
pub const VERSION_KEY: &'static str = "version";

/// The answer to a request for `VERSION_KEY`.
pub const VERSION_REPLY: &'static str = "version=69 :)";

/// A map from keys to values.
pub struct Database {
    entries: Vec<(String, String)>,
}

/// Entry `i` holds `key`.
pub open spec fn entry_of(entries: Seq<(String, String)>, key: Seq<char>, i: int) -> bool {
    0 <= i < entries.len() && entries[i].0@ == key
}

/// The map a list of entries stands for: each key to the value of its entry.
pub open spec fn entries_map(entries: Seq<(String, String)>) -> Map<Seq<char>, Seq<char>> {
    Map::new(
        |k: Seq<char>| exists|i: int| entry_of(entries, k, i),
        |k: Seq<char>| entries[choose|i: int| entry_of(entries, k, i)].1@,
    )
}

/// No key appears in two entries.
pub open spec fn keys_distinct(entries: Seq<(String, String)>) -> bool {
    forall|i: int, j: int|
        0 <= i < entries.len() && 0 <= j < entries.len() && i != j
            ==> (#[trigger] entries[i]).0@ != (#[trigger] entries[j]).0@
}

/// Storing `v` under `k` by writing entry `at`, either the entry that held
/// `k` or a new last entry when no entry held it, keeps the keys distinct and
/// updates the map at `k` alone.
proof fn lemma_store(
    before: Seq<(String, String)>,
    after: Seq<(String, String)>,
    k: Seq<char>,
    v: Seq<char>,
    at: int,
)
    requires
        keys_distinct(before),
        0 <= at <= before.len(),
        after.len() == if at < before.len() { before.len() } else { before.len() + 1 },
        after[at].0@ == k,
        after[at].1@ == v,
        forall|j: int| 0 <= j < before.len() && j != at ==> after[j] == before[j],
        at < before.len() ==> before[at].0@ == k,
        at == before.len() ==> !entries_map(before).contains_key(k),
    ensures
        keys_distinct(after),
        entries_map(after) == entries_map(before).insert(k, v),
{
    assert forall|j: int| 0 <= j < before.len() && j != at implies (#[trigger] before[j]).0@ != k by {
        if before[j].0@ == k {
            assert(entry_of(before, k, j));
            if at < before.len() {
                assert(before[at].0@ == before[j].0@);
            }
        }
    }
    assert forall|i: int, j: int|
        0 <= i < after.len() && 0 <= j < after.len() && i != j implies (#[trigger] after[i]).0@ != (
        #[trigger] after[j]).0@ by {
        if i != at && j != at {
            assert(before[i].0@ != before[j].0@);
        } else if i == at {
            assert(before[j].0@ != k);
        } else {
            assert(before[i].0@ != k);
        }
    }
    let m = entries_map(after);
    let expected = entries_map(before).insert(k, v);
    assert forall|x: Seq<char>| #[trigger] m.contains_key(x) <==> expected.contains_key(x) by {
        if x == k {
            assert(entry_of(after, k, at));
        } else {
            if exists|j: int| entry_of(before, x, j) {
                let j = choose|j: int| entry_of(before, x, j);
                assert(entry_of(after, x, j));
            }
            if exists|j: int| entry_of(after, x, j) {
                let j = choose|j: int| entry_of(after, x, j);
                assert(entry_of(before, x, j));
            }
        }
    }
    assert forall|x: Seq<char>| #[trigger] m.contains_key(x) implies m[x] == expected[x] by {
        let j = choose|j: int| entry_of(after, x, j);
        if x != k {
            assert(entry_of(before, x, j));
            let j2 = choose|j2: int| entry_of(before, x, j2);
            assert(j2 == j);
        } else {
            assert(j == at);
        }
    }
    assert(m =~= expected);
}

impl View for Database {
    type V = Map<Seq<char>, Seq<char>>;

    closed spec fn view(&self) -> Map<Seq<char>, Seq<char>> {
        entries_map(self.entries@)
    }
}

impl Database {
    /// No key is stored twice.
    pub closed spec fn wf(&self) -> bool {
        keys_distinct(self.entries@)
    }

    /// An empty database.
    pub fn new() -> (r: Database)
        ensures
            r.wf(),
            r@ == Map::<Seq<char>, Seq<char>>::empty(),
    {
        let r = Database { entries: Vec::new() };
        assert(r@ =~= Map::<Seq<char>, Seq<char>>::empty());
        r
    }

    /// The index of the entry holding `key`, if any.
    fn position(&self, key: &str) -> (r: Option<usize>)
        requires
            self.wf(),
        ensures
            r is None <==> !self@.contains_key(key@),
            r matches Some(i) ==> entry_of(self.entries@, key@, i as int),
    {
        let mut i: usize = 0;
        while i < self.entries.len()
            invariant
                i <= self.entries@.len(),
                forall|j: int| 0 <= j < i ==> !entry_of(self.entries@, key@, j),
            decreases self.entries@.len() - i,
        {
            if str_equal(self.entries[i].0.as_str(), key) {
                assert(entry_of(self.entries@, key@, i as int));
                return Some(i);
            }
            i = i + 1;
        }
        None
    }

    /// The value stored under `key`.
    pub fn get(&self, key: &str) -> (r: Option<&String>)
        requires
            self.wf(),
        ensures
            r is Some <==> self@.contains_key(key@),
            r matches Some(v) ==> v@ == self@[key@],
    {
        match self.position(key) {
            Some(i) => {
                assert(entry_of(self.entries@, key@, i as int));
                Some(&self.entries[i].1)
            },
            None => None,
        }
    }

    /// Stores `value` under `key`, replacing what was there.
    pub fn set(&mut self, key: String, value: String)
        requires
            old(self).wf(),
        ensures
            final(self).wf(),
            final(self)@ == old(self)@.insert(key@, value@),
    {
        let ghost before = self.entries@;
        let ghost k = key@;
        let ghost v = value@;
        match self.position(key.as_str()) {
            Some(i) => {
                self.entries.set(i, (key, value));
                proof {
                    lemma_store(before, self.entries@, k, v, i as int);
                }
            },
            None => {
                self.entries.push((key, value));
                proof {
                    lemma_store(before, self.entries@, k, v, before.len() as int);
                }
            },
        }
    }
}

/// The text of a request datagram: its UTF-8 decoding, trimmed.
pub open spec fn request_text(buf: Seq<u8>) -> Seq<char> {
    trimmed(decode_utf8(buf))
}

/// The parts of `s` before and after the first `c`.
pub open spec fn split_first(s: Seq<char>, c: char) -> (Seq<char>, Seq<char>)
    decreases s.len(),
{
    if s.len() == 0 {
        (seq![], seq![])
    } else if s[0] == c {
        (seq![], s.drop_first())
    } else {
        let rest = split_first(s.drop_first(), c);
        (seq![s[0]] + rest.0, rest.1)
    }
}

/// The answer to a request for `key`: the fixed version line for the
/// version key, and otherwise `key=value` with the stored value, or an empty
/// value when nothing is stored.
pub open spec fn lookup_reply(db: Map<Seq<char>, Seq<char>>, key: Seq<char>) -> Seq<char> {
    if key == VERSION_KEY@ {
        VERSION_REPLY@
    } else {
        key + "="@ + if db.contains_key(key) {
            db[key]
        } else {
            Seq::<char>::empty()
        }
    }
}

proof fn lemma_split_first(s: Seq<char>, c: char, head: Seq<char>, tail: Seq<char>)
    requires
        s == head + seq![c] + tail,
        !head.contains(c),
    ensures
        split_first(s, c) == (head, tail),
    decreases head.len(),
{
    if head.len() == 0 {
        assert(s[0] == c);
        assert(s.drop_first() =~= tail);
    } else {
        assert(s[0] == head[0]);
        assert(head[0] != c) by {
            if head[0] == c {
                assert(head.contains(c));
            }
        }
        let h2 = head.drop_first();
        assert(!h2.contains(c)) by {
            if h2.contains(c) {
                let i = choose|i: int| 0 <= i < h2.len() && h2[i] == c;
                assert(head[i + 1] == c);
            }
        }
        assert(s.drop_first() =~= h2 + seq![c] + tail);
        lemma_split_first(s.drop_first(), c, h2, tail);
        assert(seq![s[0]] + h2 =~= head);
    }
}

/// Handles one datagram. A request holding `=` stores the text after the
/// first `=` under the text before it and gets no answer; any other request
/// is answered as `lookup_reply` says. The datagram must be UTF-8.
pub fn handle_request(buf: Vec<u8>, db: &mut Database) -> (r: Option<String>)
    requires
        old(db).wf(),
        valid_utf8(buf@),
    ensures
        final(db).wf(),
        request_text(buf@).contains('=') ==> {
            &&& r is None
            &&& final(db)@ == old(db)@.insert(
                split_first(request_text(buf@), '=').0,
                split_first(request_text(buf@), '=').1,
            )
        },
        !request_text(buf@).contains('=') ==> {
            &&& final(db)@ == old(db)@
            &&& r matches Some(answer) && answer@ == lookup_reply(old(db)@, request_text(buf@))
        },
{
    let line = match string_from_utf8(buf) {
        Some(line) => line,
        None => {
            proof {
                assert(false);
            }
            return None;
        },
    };
    let req = trim(line.as_str());
    if contains_char(req, '=') {
        match split_once_char(req, '=') {
            Some((key, value)) => {
                proof {
                    lemma_split_first(req@, '=', key@, value@);
                }
                db.set(key.to_owned(), value.to_owned());
                None
            },
            None => {
                proof {
                    assert(false);
                }
                None
            },
        }
    } else {
        if str_equal(req, VERSION_KEY) {
            return Some(String::from_str(VERSION_REPLY));
        }
        let mut out = String::new();
        out.append(req);
        out.append("=");
        match db.get(req) {
            Some(value) => out.append(value.as_str()),
            None => {},
        }
        assert(out@ =~= lookup_reply(db@, req@));
        Some(out)
    }
}

/// What a read gives back of a write: after a request `key=value`, a
/// request for that key answers `key=value`, unless the key is the version key.
pub proof fn law_read_after_write(db: Map<Seq<char>, Seq<char>>, write: Seq<char>)
    requires
        write.contains('='),
        split_first(write, '=').0 != VERSION_KEY@,
    ensures
        ({
            let (key, value) = split_first(write, '=');
            lookup_reply(db.insert(key, value), key) == key + "="@ + value
        }),
{
}

/// The version key always answers the version line, whatever was stored under it.
pub proof fn law_version_is_fixed(db: Map<Seq<char>, Seq<char>>)
    ensures
        lookup_reply(db, VERSION_KEY@) == VERSION_REPLY@,
{
}

/// A retrieval gives back what was inserted: for a key without `=` and
/// without white space at its ends, and a value without white space at its
/// end, the datagram `key=value` stores `value` under `key`, and the datagram
/// `key` then answers `key=value`, the version key aside.
pub proof fn law_round_trip(db: Map<Seq<char>, Seq<char>>, key: Seq<char>, value: Seq<char>)
    requires
        key.len() > 0 ==> !is_white_space(key[0]) && !is_white_space(key.last()),
        value.len() > 0 ==> !is_white_space(value.last()),
        !key.contains('='),
        key != VERSION_KEY@,
    ensures
        ({
            let write = encode_utf8(key + "="@ + value);
            let read = encode_utf8(key);
            &&& valid_utf8(write)
            &&& valid_utf8(read)
            &&& request_text(write).contains('=')
            &&& split_first(request_text(write), '=') == (key, value)
            &&& !request_text(read).contains('=')
            &&& lookup_reply(db.insert(key, value), request_text(read)) == key + "="@ + value
        }),
{
    broadcast use encode_utf8_decode_utf8, encode_utf8_valid_utf8;

    reveal_strlit("=");
    let text = key + "="@ + value;
    assert(text =~= key + seq!['='] + value);
    assert(text[key.len() as int] == '=');
    assert(!is_white_space('='));
    assert(!is_white_space(text[0]));
    assert(trim_start_chars(text) == text);
    assert(!is_white_space(text.last()));
    assert(trim_end_chars(text) == text);
    assert(request_text(encode_utf8(text)) == text);
    assert(text.contains('='));
    lemma_split_first(text, '=', key, value);
    if key.len() > 0 {
        assert(trim_start_chars(key) == key);
        assert(trim_end_chars(key) == key);
    }
    assert(trimmed(key) == key);
    assert(request_text(encode_utf8(key)) == key);
}

/// A write leaves every other key as it was: storing under the key of
/// `write` changes nothing stored under `key` when the two keys differ.
pub proof fn law_write_leaves_other_keys(db: Map<Seq<char>, Seq<char>>, write: Seq<char>, key: Seq<char>)
    requires
        write.contains('='),
        split_first(write, '=').0 != key,
    ensures
        ({
            let (k, v) = split_first(write, '=');
            &&& db.insert(k, v).contains_key(key) == db.contains_key(key)
            &&& db.contains_key(key) ==> db.insert(k, v)[key] == db[key]
        }),
{
}

/// A read gives what is stored: for a key without `=`, without white space
/// at its ends and other than the version key, the datagram `key` answers
/// `key=value` with the value stored under it, however many other requests
/// came between the write and the read.
pub proof fn law_read_gives_stored(db: Map<Seq<char>, Seq<char>>, key: Seq<char>)
    requires
        db.contains_key(key),
        key.len() > 0 ==> !is_white_space(key[0]) && !is_white_space(key.last()),
        !key.contains('='),
        key != VERSION_KEY@,
    ensures
        valid_utf8(encode_utf8(key)),
        request_text(encode_utf8(key)) == key,
        !request_text(encode_utf8(key)).contains('='),
        lookup_reply(db, request_text(encode_utf8(key))) == key + "="@ + db[key],
{
    broadcast use encode_utf8_decode_utf8, encode_utf8_valid_utf8;

    if key.len() > 0 {
        assert(trim_start_chars(key) == key);
        assert(trim_end_chars(key) == key);
    }
    assert(trimmed(key) == key);
}

} // verus!
