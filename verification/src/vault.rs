//! The vault container: the in-memory entry map, and the encrypted on-disk
//! form it is opened from and saved to.

use crate::model::{
    entries_map, entry_views, has_key, keys_sorted, lemma_entries_map_at,
    lemma_entries_map_domain, lemma_entries_map_insert, lemma_entries_map_remove,
    lemma_entries_map_update, lemma_entry_views_insert, lemma_entry_views_remove,
    lemma_entry_views_update, lemma_keys_sorted_insert, lemma_keys_sorted_remove,
    lemma_sorted_keys_unique,
};
use crate::codec::{entries_from_json, entries_to_json, json_bytes_of, json_entries_of};
use crate::crypto::{
    aead_open, aead_seal, derive_key, derived_key_of, generate_nonce, generate_salt, opened_of,
};
use crate::errors::PassmateError;
use crate::order::{lemma_lex_lt_irrefl, lemma_lex_lt_total, lemma_lex_lt_trans, lex_lt, str_eq, str_lt};
use vstd::prelude::*;
use vstd::slice::slice_subrange;
use vstd::string::StringSliceAdditionalSpecFns;
use vstd::utf8::encode_utf8;

verus! {

/// What opening the bytes of a container file with a passphrase yields.
///
/// The first 16 bytes are the salt and the next 12 the nonce; the rest is
/// the ciphertext with its authentication tag. A container too short to hold
/// salt and nonce fails the same way a tampered one does: as `Decrypt`. A
/// wrong passphrase and a tampered container are indistinguishable, also by
/// `Decrypt`; a passphrase the key derivation rejects surfaces as
/// `EncryptionKey`; an authenticated plaintext that is not a JSON object of
/// strings surfaces as `Json`.
pub open spec fn open_outcome(passphrase: Seq<char>, bytes: Seq<u8>) -> Result<
    Seq<(Seq<char>, Seq<char>)>,
    PassmateError,
> {
    if bytes.len() < 28 {
        Err(PassmateError::Decrypt)
    } else if encode_utf8(passphrase).len() > 0xFFFF_FFFF {
        Err(PassmateError::EncryptionKey)
    } else {
        let key = derived_key_of(passphrase, bytes.subrange(0, 16));
        match opened_of(key, bytes.subrange(16, 28), bytes.skip(28)) {
            None => Err(PassmateError::Decrypt),
            Some(plaintext) => match json_entries_of(plaintext) {
                None => Err(PassmateError::Json),
                Some(entries) => Ok(entries),
            },
        }
    }
}

/// Appends all bytes of a slice to a vector.
fn push_bytes(out: &mut Vec<u8>, bytes: &[u8])
    ensures
        final(out)@ == old(out)@ + bytes@,
{
    proof {
        assert(out@ =~= out@ + bytes@.subrange(0, 0));
    }
    let n = bytes.len();
    let mut i: usize = 0;
    while i < n
        invariant
            i <= n,
            n == bytes@.len(),
            out@ == old(out)@ + bytes@.subrange(0, i as int),
        decreases n - i,
    {
        let b = bytes[i];
        proof {
            assert((old(out)@ + bytes@.subrange(0, i as int)).push(bytes@[i as int]) =~= old(out)@
                + bytes@.subrange(0, i + 1));
        }
        out.push(b);
        i += 1;
    }
    proof {
        assert(bytes@.subrange(0, n as int) =~= bytes@);
    }
}

/// Inserting a value under a name and then another value under the same name
/// leaves the map exactly as inserting the second value alone: the second
/// `set` of a name wins.
pub proof fn lemma_set_overwrites(
    m: Map<Seq<char>, Seq<char>>,
    name: Seq<char>,
    first: Seq<char>,
    second: Seq<char>,
)
    ensures
        m.insert(name, first).insert(name, second) == m.insert(name, second),
{
    assert(m.insert(name, first).insert(name, second) =~= m.insert(name, second));
}

/// A container for passwords or other secrets: the path of the backing file,
/// the passphrase the container was opened with, and the entry map, kept as a
/// sequence of name/value pairs whose names strictly increase.
pub struct Vault {
    path: String,
    passphrase: String,
    data: Vec<(String, String)>,
}

impl View for Vault {
    type V = Map<Seq<char>, Seq<char>>;

    closed spec fn view(&self) -> Map<Seq<char>, Seq<char>> {
        entries_map(entry_views(self.data@))
    }
}

impl Vault {
    /// The names and values of the entries, in storage order.
    pub closed spec fn entry_seq(self) -> Seq<(Seq<char>, Seq<char>)> {
        entry_views(self.data@)
    }

    /// The path of the backing file.
    pub closed spec fn spec_path(self) -> Seq<char> {
        self.path@
    }

    /// The passphrase the vault was opened with.
    pub closed spec fn spec_passphrase(self) -> Seq<char> {
        self.passphrase@
    }

    /// Structural invariant: entry names strictly increase, so names are
    /// unique and listed in order.
    pub closed spec fn wf(self) -> bool {
        keys_sorted(self.entry_seq())
    }

    /// The entry map is exactly what the stored entry sequence stands for.
    pub proof fn lemma_view_is_entry_seq(self)
        ensures
            self@ == entries_map(self.entry_seq()),
    {
    }

    /// Builds the vault at the given path from the bytes of its container
    /// file, or an empty vault where there is no such file.
    ///
    /// The caller reads the file at `path` itself and passes `Some` of all
    /// its bytes, or `None` when the file does not exist: a missing file is
    /// not an error but an empty vault, so first use is indistinguishable
    /// from an empty vault (and a mistyped path silently yields a fresh one).
    pub fn open(path: String, passphrase: String, contents: Option<Vec<u8>>) -> (r: Result<
        Vault,
        PassmateError,
    >)
        ensures
            contents is None ==> r is Ok && r->Ok_0.entry_seq() == Seq::<(Seq<char>, Seq<char>)>::empty()
                && r->Ok_0@ == Map::<Seq<char>, Seq<char>>::empty(),
            contents is Some ==> match open_outcome(passphrase@, contents->0@) {
                Ok(entries) => r is Ok && r->Ok_0.entry_seq() == entries && r->Ok_0@
                    == entries_map(entries),
                Err(e) => r is Err && r->Err_0 == e,
            },
            r is Ok ==> r->Ok_0.wf() && r->Ok_0.spec_path() == path@
                && r->Ok_0.spec_passphrase() == passphrase@,
    {
        let bytes = match contents {
            None => {
                let vault = Vault { path, passphrase, data: Vec::new() };
                proof {
                    assert(vault.entry_seq() =~= Seq::<(Seq<char>, Seq<char>)>::empty());
                }
                return Ok(vault);
            },
            Some(bytes) => bytes,
        };
        if bytes.len() < 28 {
            return Err(PassmateError::Decrypt);
        }
        let salt = slice_subrange(bytes.as_slice(), 0, 16);
        let nonce = slice_subrange(bytes.as_slice(), 16, 28);
        let ciphertext = slice_subrange(bytes.as_slice(), 28, bytes.len());
        let key = match derive_key(passphrase.as_str(), salt) {
            Some(k) => k,
            None => return Err(PassmateError::EncryptionKey),
        };
        let plaintext = match aead_open(key.as_slice(), nonce, ciphertext) {
            Some(p) => p,
            None => return Err(PassmateError::Decrypt),
        };
        let data = match entries_from_json(plaintext.as_slice()) {
            Some(d) => d,
            None => return Err(PassmateError::Json),
        };
        let vault = Vault { path, passphrase, data };
        Ok(vault)
    }

    /// Serializes, encrypts and frames the entry map: the result is the full
    /// new contents of the container file, salt then nonce then ciphertext
    /// and tag, which the caller writes to the vault's path in one piece,
    /// replacing any prior contents.
    ///
    /// Salt and nonce are drawn fresh on every call, so saving the same map
    /// twice yields different bytes, while opening either result with this
    /// vault's passphrase yields exactly this vault's entries — that is the
    /// first `ensures` clause. The vault itself is left untouched, so a
    /// caller may retry a failed save.
    pub fn save(&self) -> (r: Result<Vec<u8>, PassmateError>)
        requires
            self.wf(),
        ensures
            r is Ok <==> encode_utf8(self.spec_passphrase()).len() <= 0xFFFF_FFFF
                && json_bytes_of(self.entry_seq()).len() <= 0x10_0000_0000,
            r is Ok ==> open_outcome(self.spec_passphrase(), r->Ok_0@) == Ok::<
                Seq<(Seq<char>, Seq<char>)>,
                PassmateError,
            >(self.entry_seq()),
            r is Ok ==> r->Ok_0@.len() == json_bytes_of(self.entry_seq()).len() + 44,
            r is Err ==> (r->Err_0 == PassmateError::EncryptionKey || r->Err_0
                == PassmateError::Encrypt),
            r is Err ==> (r->Err_0 == PassmateError::EncryptionKey <==> encode_utf8(
                self.spec_passphrase(),
            ).len() > 0xFFFF_FFFF),
    {
        let salt = generate_salt();
        let key = match derive_key(self.passphrase.as_str(), salt.as_slice()) {
            Some(k) => k,
            None => return Err(PassmateError::EncryptionKey),
        };
        let plaintext = match entries_to_json(&self.data) {
            Some(p) => p,
            None => return Err(PassmateError::Json),
        };
        let nonce = generate_nonce();
        let sealed = match aead_seal(key.as_slice(), nonce.as_slice(), plaintext.as_slice()) {
            Some(c) => c,
            None => return Err(PassmateError::Encrypt),
        };
        let mut out: Vec<u8> = Vec::new();
        push_bytes(&mut out, salt.as_slice());
        push_bytes(&mut out, nonce.as_slice());
        push_bytes(&mut out, sealed.as_slice());
        proof {
            let bytes = out@;
            assert(bytes =~= salt@ + nonce@ + sealed@);
            assert(bytes.subrange(0, 16) =~= salt@);
            assert(bytes.subrange(16, 28) =~= nonce@);
            assert(bytes.skip(28) =~= sealed@);
        }
        Ok(out)
    }

    /// The path of the file backing this vault.
    pub fn path(&self) -> (r: &String)
        ensures
            r@ == self.spec_path(),
    {
        &self.path
    }

    /// Looks up an entry by the given name.
    #[must_use]
    pub fn get(&self, name: &str) -> (r: Option<&String>)
        requires
            self.wf(),
        ensures
            match r {
                Some(v) => self@.contains_key(name@) && v@ == self@[name@],
                None => !self@.contains_key(name@),
            },
    {
        let n = self.data.len();
        let mut i: usize = 0;
        while i < n
            invariant
                self.wf(),
                n == self.data@.len(),
                i <= n,
                forall|j: int| 0 <= j < i ==> self.data@[j].0@ != name@,
            decreases n - i,
        {
            if str_eq(self.data[i].0.as_str(), name) {
                proof {
                    lemma_sorted_keys_unique(self.entry_seq());
                    assert(self.entry_seq()[i as int].0 == name@);
                    lemma_entries_map_at(self.entry_seq(), i as int);
                }
                return Some(&self.data[i].1);
            }
            i += 1;
        }
        proof {
            lemma_entries_map_domain(self.entry_seq());
            if has_key(self.entry_seq(), name@) {
                let j = choose|j: int|
                    0 <= j < self.entry_seq().len() && self.entry_seq()[j].0 == name@;
                assert(self.data@[j].0@ == name@);
            }
        }
        None
    }

    /// Adds an entry with the given name, or overwrites the value of the
    /// entry that already carries it. Touches only the in-memory map.
    pub fn set(&mut self, name: String, value: String)
        requires
            old(self).wf(),
        ensures
            final(self).wf(),
            final(self)@ == old(self)@.insert(name@, value@),
            final(self).spec_path() == old(self).spec_path(),
            final(self).spec_passphrase() == old(self).spec_passphrase(),
    {
        let ghost s0 = old(self).entry_seq();
        let n = self.data.len();
        let mut i: usize = 0;
        while i < n
            invariant_except_break
                *self == *old(self),
                n == self.data@.len(),
                i <= n,
                forall|j: int| 0 <= j < i ==> lex_lt(self.data@[j].0@, name@),
            ensures
                *self == *old(self),
                i <= n,
                forall|j: int| 0 <= j < i ==> lex_lt(self.data@[j].0@, name@),
                i < n ==> !lex_lt(self.data@[i as int].0@, name@),
            decreases n - i,
        {
            if !str_lt(self.data[i].0.as_str(), name.as_str()) {
                break;
            }
            i += 1;
        }
        proof {
            lemma_sorted_keys_unique(s0);
            assert forall|j: int| 0 <= j < i implies lex_lt(s0[j].0, name@) by {
                assert(s0[j].0 == self.data@[j].0@);
            }
        }
        let hit = i < n && str_eq(self.data[i].0.as_str(), name.as_str());
        if hit {
            proof {
                assert(s0[i as int].0 == name@);
                lemma_entries_map_update(s0, i as int, (name@, value@));
                lemma_entry_views_update(old(self).data@, i as int, (name, value));
            }
            self.data[i] = (name, value);
            proof {
                let s1 = self.entry_seq();
                assert(s1 == s0.update(i as int, (name@, value@)));
                assert forall|a: int| 0 <= a < s1.len() implies s1[a].0 == s0[a].0 by {}
                assert forall|a: int, b: int| 0 <= a < b < s1.len() implies lex_lt(
                    s1[a].0,
                    s1[b].0,
                ) by {
                    assert(lex_lt(s0[a].0, s0[b].0));
                }
            }
        } else {
            proof {
                if i < n {
                    assert(s0[i as int].0 != name@);
                    assert(!lex_lt(s0[i as int].0, name@));
                    lemma_lex_lt_total(s0[i as int].0, name@);
                    assert(lex_lt(name@, s0[i as int].0));
                }
                assert forall|j: int| i <= j < s0.len() implies lex_lt(name@, s0[j].0) by {
                    if j > i {
                        assert(lex_lt(s0[i as int].0, s0[j].0));
                        lemma_lex_lt_trans(name@, s0[i as int].0, s0[j].0);
                    }
                }
                assert(!has_key(s0, name@)) by {
                    if has_key(s0, name@) {
                        let j = choose|j: int| 0 <= j < s0.len() && s0[j].0 == name@;
                        lemma_lex_lt_irrefl(name@);
                    }
                }
                lemma_keys_sorted_insert(s0, i as int, (name@, value@));
                lemma_entries_map_insert(s0, i as int, (name@, value@));
                lemma_entry_views_insert(old(self).data@, i as int, (name, value));
            }
            self.data.insert(i, (name, value));
            proof {
                assert(self.entry_seq() == s0.insert(i as int, (name@, value@)));
            }
        }
    }

    /// Removes the entry with the given name; a vault without such an entry
    /// is left exactly as it is.
    pub fn remove(&mut self, name: &str)
        requires
            old(self).wf(),
        ensures
            final(self).wf(),
            final(self)@ == old(self)@.remove(name@),
            !old(self)@.contains_key(name@) ==> *final(self) == *old(self),
            final(self).spec_path() == old(self).spec_path(),
            final(self).spec_passphrase() == old(self).spec_passphrase(),
    {
        let ghost s0 = old(self).entry_seq();
        let n = self.data.len();
        let mut i: usize = 0;
        while i < n
            invariant
                old(self).wf(),
                s0 == old(self).entry_seq(),
                *self == *old(self),
                n == self.data@.len(),
                i <= n,
                forall|j: int| 0 <= j < i ==> self.data@[j].0@ != name@,
            decreases n - i,
        {
            if str_eq(self.data[i].0.as_str(), name) {
                proof {
                    assert(self.data@[i as int].0@ == name@);
                    assert(s0[i as int].0 == name@);
                    assert(has_key(s0, name@));
                    lemma_sorted_keys_unique(s0);
                    lemma_entries_map_domain(s0);
                    lemma_entries_map_remove(s0, i as int);
                    lemma_keys_sorted_remove(s0, i as int);
                    lemma_entry_views_remove(old(self).data@, i as int);
                }
                self.data.remove(i);
                proof {
                    assert(self.entry_seq() == s0.remove(i as int));
                }
                return;
            }
            i += 1;
        }
        proof {
            lemma_entries_map_domain(s0);
            assert(!has_key(s0, name@)) by {
                if has_key(s0, name@) {
                    let j = choose|j: int| 0 <= j < s0.len() && s0[j].0 == name@;
                    assert(self.data@[j].0@ == name@);
                }
            }
            assert(old(self)@.remove(name@) =~= old(self)@);
        }
    }

    /// Returns the entry names, in increasing lexicographic order whatever
    /// the order the entries were added in.
    #[must_use]
    pub fn entries(&self) -> (r: Vec<String>)
        requires
            self.wf(),
        ensures
            r@.len() == self.entry_seq().len(),
            forall|i: int| 0 <= i < r@.len() ==> r@[i]@ == self.entry_seq()[i].0,
            forall|i: int, j: int| 0 <= i < j < r@.len() ==> lex_lt(r@[i]@, r@[j]@),
            forall|k: Seq<char>|
                self@.contains_key(k) <==> exists|i: int| 0 <= i < r@.len() && r@[i]@ == k,
    {
        let mut out: Vec<String> = Vec::new();
        let n = self.data.len();
        let mut i: usize = 0;
        while i < n
            invariant
                n == self.data@.len(),
                i <= n,
                out@.len() == i,
                forall|j: int| 0 <= j < i ==> out@[j]@ == self.data@[j].0@,
            decreases n - i,
        {
            out.push(self.data[i].0.clone());
            i += 1;
        }
        proof {
            assert forall|a: int, b: int| 0 <= a < b < out@.len() implies lex_lt(
                out@[a]@,
                out@[b]@,
            ) by {
                assert(self.entry_seq()[a].0 == self.data@[a].0@);
                assert(self.entry_seq()[b].0 == self.data@[b].0@);
                assert(lex_lt(self.entry_seq()[a].0, self.entry_seq()[b].0));
            }
            lemma_entries_map_domain(self.entry_seq());
            assert forall|k: Seq<char>|
                self@.contains_key(k) <==> exists|i: int|
                    0 <= i < out@.len() && out@[i]@ == k by {
                if self@.contains_key(k) {
                    assert(has_key(self.entry_seq(), k));
                    let j = choose|j: int|
                        0 <= j < self.entry_seq().len() && self.entry_seq()[j].0 == k;
                    assert(self.data@[j].0@ == k);
                    assert(out@[j]@ == k);
                }
                if exists|i: int| 0 <= i < out@.len() && out@[i]@ == k {
                    let j = choose|j: int| 0 <= j < out@.len() && out@[j]@ == k;
                    assert(self.entry_seq()[j].0 == k);
                    assert(has_key(self.entry_seq(), k));
                }
            }
        }
        out
    }
}

} // verus!
