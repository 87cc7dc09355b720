//! The set of blocked names, keyed by the fixed-width buffer that decoding a
//! question name leaves behind.

use vstd::prelude::*;
use vstd::utf8::encode_utf8;
use crate::consts::PACKET_DATA_BUF_LEN;

verus! {

/// The key under which a name is blocked: its bytes, then zeros up to the
/// buffer's width.
pub open spec fn padded_key(name: Seq<u8>) -> Seq<u8> {
    Seq::new(PACKET_DATA_BUF_LEN as nat, |i: int| if i < name.len() { name[i] } else { 0u8 })
}

/// Builds the key of a name of at most `PACKET_DATA_BUF_LEN` bytes.
pub fn blocklist_key(name: &[u8]) -> (key: [u8; PACKET_DATA_BUF_LEN])
    requires
        name@.len() <= PACKET_DATA_BUF_LEN,
    ensures
        key@ == padded_key(name@),
{
    let mut key = [0u8; PACKET_DATA_BUF_LEN];
    let n: usize = name.len();
    let mut i: usize = 0;
    while i < n
        invariant
            n == name@.len(),
            n <= PACKET_DATA_BUF_LEN,
            i <= n,
            forall|j: int| 0 <= j < i ==> key@[j] == name@[j],
            forall|j: int| i <= j < PACKET_DATA_BUF_LEN ==> key@[j] == 0,
        decreases n - i,
    {
        key[i] = name[i];
        i += 1;
    }
    assert(key@ =~= padded_key(name@));
    key
}

/// Whether two keys hold the same bytes.
fn same_key(a: &[u8; PACKET_DATA_BUF_LEN], b: &[u8; PACKET_DATA_BUF_LEN]) -> (same: bool)
    ensures
        same == (a@ == b@),
{
    let mut i: usize = 0;
    while i < PACKET_DATA_BUF_LEN
        invariant
            i <= PACKET_DATA_BUF_LEN,
            forall|j: int| 0 <= j < i ==> a@[j] == b@[j],
        decreases PACKET_DATA_BUF_LEN - i,
    {
        if a[i] != b[i] {
            return false;
        }
        i += 1;
    }
    assert(a@ =~= b@);
    true
}

/// The provisioned set of blocked names. The packet path only reads it.
pub struct Blocklist {
    keys: Vec<[u8; PACKET_DATA_BUF_LEN]>,
}

impl View for Blocklist {
    type V = Set<Seq<u8>>;

    /// The keys that are blocked.
    closed spec fn view(&self) -> Set<Seq<u8>> {
        Set::new(|key: Seq<u8>| exists|i: int| 0 <= i < self.keys@.len() && self.keys@[i]@ == key)
    }
}

impl Blocklist {
    /// No key is stored twice.
    pub closed spec fn wf(&self) -> bool {
        forall|i: int, j: int|
            0 <= i < j < self.keys@.len() ==> self.keys@[i]@ != self.keys@[j]@
    }

    /// A list that blocks nothing.
    pub fn new() -> (list: Blocklist)
        ensures
            list.wf(),
            list@ == Set::<Seq<u8>>::empty(),
    {
        let list = Blocklist { keys: Vec::new() };
        assert(list@ =~= Set::<Seq<u8>>::empty());
        list
    }

    /// Exact-match lookup of a key: no prefix, suffix or wildcard counts.
    pub fn contains(&self, key: &[u8; PACKET_DATA_BUF_LEN]) -> (present: bool)
        ensures
            present == self@.contains(key@),
    {
        let mut i: usize = 0;
        while i < self.keys.len()
            invariant
                i <= self.keys@.len(),
                forall|j: int| 0 <= j < i ==> self.keys@[j]@ != key@,
            decreases self.keys@.len() - i,
        {
            if same_key(&self.keys[i], key) {
                return true;
            }
            i += 1;
        }
        false
    }

    /// Blocks a key. Blocking it again changes nothing.
    pub fn insert(&mut self, key: [u8; PACKET_DATA_BUF_LEN])
        requires
            old(self).wf(),
        ensures
            final(self).wf(),
            final(self)@ == old(self)@.insert(key@),
    {
        if !self.contains(&key) {
            let ghost before = self.keys@;
            self.keys.push(key);
            assert(self.keys@ == before.push(key));
            assert forall|k: Seq<u8>| self@.contains(k) <==> old(self)@.insert(key@).contains(
                k,
            ) by {
                if old(self)@.contains(k) {
                    let i = choose|i: int| 0 <= i < before.len() && before[i]@ == k;
                    assert(self.keys@[i]@ == k);
                }
                if k == key@ {
                    assert(self.keys@[before.len() as int]@ == k);
                }
            }
        }
        assert(self@ =~= old(self)@.insert(key@));
    }
}

/// The keys of all the names in `lines`, as a set.
pub open spec fn keys_of(lines: Seq<String>) -> Set<Seq<u8>> {
    Set::new(
        |key: Seq<u8>|
            exists|i: int| 0 <= i < lines.len() && padded_key(encode_utf8(#[trigger] lines[i]@)) == key,
    )
}

/// Blocks every name of `lines`, one name per line, each of at most
/// `PACKET_DATA_BUF_LEN` bytes. The order of the lines and repetitions among
/// them make no difference.
pub fn read_blocklist_to_map(map: &mut Blocklist, lines: &Vec<String>)
    requires
        old(map).wf(),
        forall|i: int|
            0 <= i < lines@.len() ==> encode_utf8((#[trigger] lines@[i])@).len()
                <= PACKET_DATA_BUF_LEN,
    ensures
        final(map).wf(),
        final(map)@ == old(map)@.union(keys_of(lines@)),
{
    let mut i: usize = 0;
    assert(map@ =~= old(map)@.union(keys_of(lines@.take(0))));
    while i < lines.len()
        invariant
            i <= lines@.len(),
            map.wf(),
            map@ == old(map)@.union(keys_of(lines@.take(i as int))),
            forall|i: int|
                0 <= i < lines@.len() ==> encode_utf8((#[trigger] lines@[i])@).len()
                    <= PACKET_DATA_BUF_LEN,
        decreases lines@.len() - i,
    {
        let key = blocklist_key(lines[i].as_str().as_bytes());
        map.insert(key);
        proof {
            let done = lines@.take(i as int);
            let next = lines@.take(i + 1);
            assert forall|k: Seq<u8>| keys_of(next).contains(k) <==> keys_of(done).insert(
                key@,
            ).contains(k) by {
                if keys_of(next).contains(k) {
                    let j = choose|j: int|
                        0 <= j < next.len() && padded_key(encode_utf8(#[trigger] next[j]@)) == k;
                    if j < i {
                        assert(done[j] == next[j]);
                    }
                }
                if keys_of(done).contains(k) {
                    let j = choose|j: int|
                        0 <= j < done.len() && padded_key(encode_utf8(#[trigger] done[j]@)) == k;
                    assert(next[j] == done[j]);
                }
                if k == key@ {
                    assert(next[i as int] == lines@[i as int]);
                }
            }
            assert(keys_of(next) =~= keys_of(done).insert(key@));
            assert(map@ =~= old(map)@.union(keys_of(next)));
        }
        i += 1;
    }
    assert(lines@.take(i as int) =~= lines@);
}

/// Neither the order of the lines nor a repetition among them matters: two
/// lists of lines that hold the same names give the same keys.
pub proof fn lemma_keys_ignore_order_and_repeats(first: Seq<String>, second: Seq<String>)
    requires
        forall|line: String| first.contains(line) <==> second.contains(line),
    ensures
        keys_of(first) == keys_of(second),
{
    assert forall|key: Seq<u8>| keys_of(first).contains(key) <==> keys_of(second).contains(
        key,
    ) by {
        if keys_of(first).contains(key) {
            let i = choose|i: int|
                0 <= i < first.len() && padded_key(encode_utf8(#[trigger] first[i]@)) == key;
            assert(first.contains(first[i]));
            let j = choose|j: int| 0 <= j < second.len() && second[j] == first[i];
            assert(padded_key(encode_utf8(second[j]@)) == key);
        }
        if keys_of(second).contains(key) {
            let i = choose|i: int|
                0 <= i < second.len() && padded_key(encode_utf8(#[trigger] second[i]@)) == key;
            assert(second.contains(second[i]));
            let j = choose|j: int| 0 <= j < first.len() && first[j] == second[i];
            assert(padded_key(encode_utf8(first[j]@)) == key);
        }
    }
    assert(keys_of(first) =~= keys_of(second));
}

} // verus!
