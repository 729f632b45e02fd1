use vstd::prelude::*;
use std::hash::Hasher;
use vstd::std_specs::hash::DefaultHasherAdditionalSpecFns;
use vstd::string::StringSliceAdditionalSpecFns;
use crate::collections::StrMap;
use crate::text::{push_char, string_of};
use crate::yard::paths::{joined, join_path};

verus! {

/// The hash of a text as `Hash::hash` feeds it to a fresh `DefaultHasher`:
/// its bytes, then the byte `0xff`.
pub open spec fn text_hash(content: &str) -> u64 {
    std::collections::hash_map::DefaultHasher::spec_finish(seq![content.spec_bytes(), seq![0xffu8]])
}

/// The lowercase hexadecimal digit of `d`.
pub open spec fn hex_digit(d: int) -> char {
    if d < 10 {
        crate::text::digit_char(d)
    } else if d == 10 {
        'a'
    } else if d == 11 {
        'b'
    } else if d == 12 {
        'c'
    } else if d == 13 {
        'd'
    } else if d == 14 {
        'e'
    } else {
        'f'
    }
}

/// The lowercase hexadecimal text of a number, without leading zeros
/// ("0" for zero), as `{:x}` writes it.
pub open spec fn hex(n: nat) -> Seq<char>
    decreases n,
{
    if n < 16 {
        seq![hex_digit(n as int)]
    } else {
        hex(n / 16).push(hex_digit((n % 16) as int))
    }
}

fn hex_digit_exec(d: u64) -> (c: char)
    requires
        d < 16,
    ensures
        c == hex_digit(d as int),
{
    if d == 0 {
        '0'
    } else if d == 1 {
        '1'
    } else if d == 2 {
        '2'
    } else if d == 3 {
        '3'
    } else if d == 4 {
        '4'
    } else if d == 5 {
        '5'
    } else if d == 6 {
        '6'
    } else if d == 7 {
        '7'
    } else if d == 8 {
        '8'
    } else if d == 9 {
        '9'
    } else if d == 10 {
        'a'
    } else if d == 11 {
        'b'
    } else if d == 12 {
        'c'
    } else if d == 13 {
        'd'
    } else if d == 14 {
        'e'
    } else {
        'f'
    }
}

/// Appends the hexadecimal text of `n`.
pub fn push_hex(s: &mut String, n: u64)
    ensures
        final(s)@ == old(s)@ + hex(n as nat),
    decreases n,
{
    if n < 16 {
        push_char(s, hex_digit_exec(n));
        proof {
            assert(old(s)@ + hex(n as nat) == old(s)@.push(hex_digit(n as int)));
        }
    } else {
        push_hex(s, n / 16);
        push_char(s, hex_digit_exec(n % 16));
        proof {
            assert(old(s)@ + hex(n as nat) == (old(s)@ + hex((n / 16) as nat)).push(
                hex_digit((n % 16) as int),
            ));
        }
    }
}

/// The build cache: the content hash of each source file at its last
/// successful compile, by its path relative to the project.
pub struct BuildCache {
    pub entries: StrMap<String>,
}

impl BuildCache {
    /// An empty cache.
    pub fn new() -> (c: Self)
        ensures
            c.entries.wf(),
            c.entries.view() == Map::<Seq<char>, Seq<char>>::empty(),
    {
        BuildCache { entries: StrMap::new() }
    }

    /// Where the cache is kept inside the target directory.
    pub fn cache_file_path(target_dir: &str) -> (r: String)
        ensures
            r@ == joined(target_dir@, ".cache_meta.json"@),
    {
        join_path(target_dir, ".cache_meta.json")
    }

    /// The content hash of a source text, in hexadecimal.
    pub fn compute_hash(content: &str) -> (r: String)
        ensures
            r@ == hex(text_hash(content) as nat),
    {
        let mut hasher = std::collections::hash_map::DefaultHasher::new();
        hasher.write(content.as_bytes());
        let end: [u8; 1] = [0xffu8];
        hasher.write(&end);
        let h = hasher.finish();
        proof {
            assert(end@ =~= seq![0xffu8]);
            assert(hasher@ =~= seq![content.spec_bytes(), seq![0xffu8]]);
        }
        let mut s = String::new();
        push_hex(&mut s, h);
        s
    }

    /// Whether the file can be reused: its object file exists and the cache
    /// holds the same content hash for it.
    pub fn is_cached(&self, rel_path: &str, content_hash: &str, obj_exists: bool) -> (r: bool)
        requires
            self.entries.wf(),
        ensures
            r == (obj_exists && self.entries.view().contains_key(rel_path@)
                && self.entries.view()[rel_path@] == content_hash@),
    {
        if !obj_exists {
            return false;
        }
        match self.entries.get(rel_path) {
            Some(cached) => cached.eq(&string_of(content_hash)),
            None => false,
        }
    }

    /// Records the hash of a file that compiled.
    pub fn update(&mut self, rel_path: String, content_hash: String)
        requires
            old(self).entries.wf(),
        ensures
            final(self).entries.wf(),
            final(self).entries.view() == old(self).entries.view().insert(rel_path@, content_hash@),
    {
        self.entries.insert(rel_path, content_hash);
    }
}

impl Default for BuildCache {
    fn default() -> (c: Self)
        ensures
            c.entries.wf(),
            c.entries.view() == Map::<Seq<char>, Seq<char>>::empty(),
    {
        Self::new()
    }
}

/// A lowercase hexadecimal digit.
pub open spec fn is_hex_char(c: char) -> bool {
    ('0' <= c && c <= '9') || ('a' <= c && c <= 'f')
}

/// Sixteen to the power `k`.
pub open spec fn pow16(k: nat) -> nat
    decreases k,
{
    if k == 0 {
        1
    } else {
        16 * pow16((k - 1) as nat)
    }
}

proof fn lemma_hex(n: nat, k: nat)
    requires
        1 <= k,
        n < pow16(k),
    ensures
        1 <= hex(n).len() <= k,
        forall|i: int| 0 <= i < hex(n).len() ==> is_hex_char(#[trigger] hex(n)[i]),
    decreases n,
{
    if n >= 16 {
        assert(k >= 2) by {
            if k == 1 {
                assert(pow16(0) == 1);
                assert(pow16(1) == 16);
            }
        }
        let k1 = (k - 1) as nat;
        assert(pow16(k) == 16 * pow16(k1));
        assert(n / 16 < pow16(k1)) by (nonlinear_arith)
            requires
                n < 16 * pow16(k1),
        {}
        lemma_hex(n / 16, k1);
        let d = (n % 16) as int;
        assert(is_hex_char(hex_digit(d)));
        assert forall|i: int| 0 <= i < hex(n).len() implies is_hex_char(#[trigger] hex(n)[i]) by {
            if i < hex(n / 16).len() {
                assert(hex(n)[i] == hex(n / 16)[i]);
            }
        }
    } else {
        assert(is_hex_char(hex_digit(n as int)));
    }
}

/// A content hash is one to sixteen lowercase hexadecimal digits.
pub proof fn law_hash_is_short_hex(content: &str)
    ensures
        1 <= hex(text_hash(content) as nat).len() <= 16,
        forall|i: int|
            0 <= i < hex(text_hash(content) as nat).len() ==> is_hex_char(#[trigger] hex(text_hash(content) as nat)[i]),
{
    reveal_with_fuel(pow16, 17);
    assert(pow16(16) == 0x1_0000_0000_0000_0000);
    lemma_hex(text_hash(content) as nat, 16);
}

/// A file recorded with a hash is reused with that hash while its object
/// file exists, and not with any other hash.
pub proof fn law_recorded_hash_is_reused(
    entries: Map<Seq<char>, Seq<char>>,
    rel_path: Seq<char>,
    hash: Seq<char>,
    other: Seq<char>,
)
    requires
        other != hash,
    ensures
        ({
            let after = entries.insert(rel_path, hash);
            &&& after.contains_key(rel_path) && after[rel_path] == hash
            &&& !(after.contains_key(rel_path) && after[rel_path] == other)
        }),
{
}

} // verus!
