//! Link-tag identity: naming, ordering and hashing of link endpoints
//! across heterogeneous transports.

use vstd::prelude::*;

verus! {

/// Direction of a link: which endpoint initiated it.
#[derive(Clone, Copy, Debug, PartialEq, Eq, Structural)]
pub enum Direction {
    Outgoing,
    Incoming,
}

/// Outcome of comparing two link tags.
#[derive(Clone, Copy, Debug, PartialEq, Eq, Structural)]
pub enum TagOrder {
    Less,
    Equal,
    Greater,
}

/// Identity of one link endpoint: the transport's name, a stable token
/// standing for the transport's concrete type, and a transport-specific key
/// (for TCP an address, for RFCOMM a device and channel, and so on).
/// Together these order totally, so tags of heterogeneous transports can key
/// a map and deduplicate membership within a connection.
#[derive(Clone, Debug)]
pub struct LinkTag {
    /// Name of the transport this endpoint belongs to.
    pub transport: Vec<u8>,
    /// Stable per-transport type token, partitioning the order by transport kind.
    pub type_token: u64,
    /// Transport-specific identity bytes.
    pub key: Vec<u8>,
}

/// Two tags are the same endpoint identity exactly when all three components agree.
pub open spec fn tag_eq(a: LinkTag, b: LinkTag) -> bool {
    a.transport@ == b.transport@ && a.type_token == b.type_token && a.key@ == b.key@
}

/// Lexicographic order on byte sequences.
pub open spec fn lex_cmp(a: Seq<u8>, b: Seq<u8>) -> TagOrder
    decreases a.len(),
{
    if a.len() == 0 && b.len() == 0 {
        TagOrder::Equal
    } else if a.len() == 0 {
        TagOrder::Less
    } else if b.len() == 0 {
        TagOrder::Greater
    } else if a[0] < b[0] {
        TagOrder::Less
    } else if a[0] > b[0] {
        TagOrder::Greater
    } else {
        lex_cmp(a.skip(1), b.skip(1))
    }
}

/// Total order on tags: transport name first, then type token, then key.
pub open spec fn spec_tag_cmp(a: LinkTag, b: LinkTag) -> TagOrder {
    if lex_cmp(a.transport@, b.transport@) != TagOrder::Equal {
        lex_cmp(a.transport@, b.transport@)
    } else if a.type_token < b.type_token {
        TagOrder::Less
    } else if a.type_token > b.type_token {
        TagOrder::Greater
    } else {
        lex_cmp(a.key@, b.key@)
    }
}

/// `a` sorts at or before `b`: the tie-break order the dispatcher uses.
pub open spec fn tag_le(a: LinkTag, b: LinkTag) -> bool {
    spec_tag_cmp(a, b) != TagOrder::Greater
}

/// Lexicographic comparison answers `Equal` exactly on equal sequences.
pub proof fn lemma_lex_cmp_equal(a: Seq<u8>, b: Seq<u8>)
    ensures
        (lex_cmp(a, b) == TagOrder::Equal) <==> (a == b),
    decreases a.len(),
{
    if a.len() == 0 && b.len() == 0 {
        assert(a =~= b);
    } else if a.len() == 0 || b.len() == 0 {
        assert(a != b);
    } else if a[0] == b[0] {
        lemma_lex_cmp_equal(a.skip(1), b.skip(1));
        if a.skip(1) == b.skip(1) {
            assert forall|i: int| 0 <= i < a.len() implies a[i] == b[i] by {
                if i > 0 {
                    assert(a[i] == a.skip(1)[i - 1]);
                    assert(b[i] == b.skip(1)[i - 1]);
                }
            }
            assert(a =~= b);
        } else {
            assert(a != b) by {
                if a == b {
                    assert(a.skip(1) =~= b.skip(1));
                }
            }
        }
    } else {
        assert(a != b) by {
            if a == b {
                assert(a[0] == b[0]);
            }
        }
    }
}

/// Swapping the operands of the lexicographic comparison swaps the outcome.
pub proof fn lemma_lex_cmp_flip(a: Seq<u8>, b: Seq<u8>)
    ensures
        (lex_cmp(a, b) == TagOrder::Less) <==> (lex_cmp(b, a) == TagOrder::Greater),
        (lex_cmp(a, b) == TagOrder::Equal) <==> (lex_cmp(b, a) == TagOrder::Equal),
    decreases a.len(),
{
    if a.len() > 0 && b.len() > 0 && a[0] == b[0] {
        lemma_lex_cmp_flip(a.skip(1), b.skip(1));
    }
}

/// The lexicographic at-or-before relation is transitive.
pub proof fn lemma_lex_cmp_trans(a: Seq<u8>, b: Seq<u8>, c: Seq<u8>)
    requires
        lex_cmp(a, b) != TagOrder::Greater,
        lex_cmp(b, c) != TagOrder::Greater,
    ensures
        lex_cmp(a, c) != TagOrder::Greater,
    decreases a.len(),
{
    if a.len() > 0 && b.len() > 0 && c.len() > 0 && a[0] == b[0] && b[0] == c[0] {
        lemma_lex_cmp_trans(a.skip(1), b.skip(1), c.skip(1));
    }
}

/// Every tag sorts at or before itself.
pub proof fn lemma_tag_le_refl(t: LinkTag)
    ensures
        tag_le(t, t),
        spec_tag_cmp(t, t) == TagOrder::Equal,
{
    lemma_lex_cmp_equal(t.transport@, t.transport@);
    lemma_lex_cmp_equal(t.key@, t.key@);
}

/// Swapping the operands of the tag comparison swaps the outcome.
pub proof fn lemma_tag_cmp_flip(a: LinkTag, b: LinkTag)
    ensures
        (spec_tag_cmp(a, b) == TagOrder::Less) <==> (spec_tag_cmp(b, a) == TagOrder::Greater),
        (spec_tag_cmp(a, b) == TagOrder::Equal) <==> (spec_tag_cmp(b, a) == TagOrder::Equal),
{
    lemma_lex_cmp_flip(a.transport@, b.transport@);
    lemma_lex_cmp_flip(a.key@, b.key@);
}

/// The tag at-or-before relation is transitive: with reflexivity and the
/// flip law it makes `spec_tag_cmp` a total order on tags.
pub proof fn lemma_tag_le_trans(a: LinkTag, b: LinkTag, c: LinkTag)
    requires
        tag_le(a, b),
        tag_le(b, c),
    ensures
        tag_le(a, c),
{
    lemma_lex_cmp_equal(a.transport@, b.transport@);
    lemma_lex_cmp_equal(b.transport@, c.transport@);
    lemma_lex_cmp_equal(a.transport@, c.transport@);
    lemma_lex_cmp_equal(a.key@, b.key@);
    lemma_lex_cmp_equal(b.key@, c.key@);
    lemma_lex_cmp_equal(a.key@, c.key@);
    lemma_lex_cmp_flip(a.transport@, b.transport@);
    lemma_lex_cmp_flip(b.transport@, c.transport@);
    lemma_lex_cmp_flip(a.transport@, c.transport@);
    lemma_lex_cmp_flip(a.key@, b.key@);
    lemma_lex_cmp_flip(b.key@, c.key@);
    lemma_lex_cmp_flip(a.key@, c.key@);
    if lex_cmp(a.transport@, b.transport@) != TagOrder::Greater && lex_cmp(
        b.transport@,
        c.transport@,
    ) != TagOrder::Greater {
        lemma_lex_cmp_trans(a.transport@, b.transport@, c.transport@);
    }
    if lex_cmp(a.key@, b.key@) != TagOrder::Greater && lex_cmp(b.key@, c.key@)
        != TagOrder::Greater {
        lemma_lex_cmp_trans(a.key@, b.key@, c.key@);
    }
}

fn cmp_bytes(a: &Vec<u8>, b: &Vec<u8>) -> (r: TagOrder)
    ensures
        r == lex_cmp(a@, b@),
{
    let mut i: usize = 0;
    proof {
        assert(a@.skip(0) =~= a@);
        assert(b@.skip(0) =~= b@);
    }
    loop
        invariant
            i <= a.len(),
            i <= b.len(),
            lex_cmp(a@, b@) == lex_cmp(a@.skip(i as int), b@.skip(i as int)),
        decreases a.len() - i,
    {
        if i == a.len() && i == b.len() {
            return TagOrder::Equal;
        } else if i == a.len() {
            return TagOrder::Less;
        } else if i == b.len() {
            return TagOrder::Greater;
        } else if a[i] < b[i] {
            return TagOrder::Less;
        } else if a[i] > b[i] {
            return TagOrder::Greater;
        }
        proof {
            assert(a@.skip(i as int).skip(1) =~= a@.skip(i as int + 1));
            assert(b@.skip(i as int).skip(1) =~= b@.skip(i as int + 1));
        }
        i = i + 1;
    }
}

impl LinkTag {
    /// Builds a tag from its three identity components.
    pub fn new(transport: Vec<u8>, type_token: u64, key: Vec<u8>) -> (r: LinkTag)
        ensures
            r.transport@ == transport@,
            r.type_token == type_token,
            r.key@ == key@,
    {
        LinkTag { transport, type_token, key }
    }

    /// Copies the tag; the copy carries the same identity components.
    pub fn dup(&self) -> (r: LinkTag)
        ensures
            r.transport@ == self.transport@,
            r.type_token == self.type_token,
            r.key@ == self.key@,
            tag_eq(r, *self),
    {
        let transport = self.transport.clone();
        let key = self.key.clone();
        proof {
            assert(transport@ =~= self.transport@);
            assert(key@ =~= self.key@);
        }
        LinkTag { transport, type_token: self.type_token, key }
    }

    /// Compares this tag to another under the total order.
    pub fn cmp_tag(&self, other: &LinkTag) -> (r: TagOrder)
        ensures
            r == spec_tag_cmp(*self, *other),
    {
        let t = cmp_bytes(&self.transport, &other.transport);
        match t {
            TagOrder::Equal => {
                if self.type_token < other.type_token {
                    TagOrder::Less
                } else if self.type_token > other.type_token {
                    TagOrder::Greater
                } else {
                    cmp_bytes(&self.key, &other.key)
                }
            },
            _ => t,
        }
    }

    /// Tests whether two tags are the same endpoint identity.
    pub fn eq_tag(&self, other: &LinkTag) -> (r: bool)
        ensures
            r == tag_eq(*self, *other),
    {
        proof {
            lemma_lex_cmp_equal(self.transport@, other.transport@);
            lemma_lex_cmp_equal(self.key@, other.key@);
        }
        match self.cmp_tag(other) {
            TagOrder::Equal => true,
            _ => false,
        }
    }

    /// Hashes the tag; a pure function of the three identity components.
    pub fn hash_tag(&self) -> (r: u64)
        ensures
            r == spec_tag_hash(*self),
    {
        let mut h: u64 = fold_bytes(FNV_OFFSET, &self.transport);
        h = h ^ self.type_token;
        h = h.wrapping_mul(FNV_PRIME);
        h = fold_bytes(h, &self.key);
        h
    }
}

/// Offset basis of the FNV-1a byte fold.
pub const FNV_OFFSET: u64 = 0xcbf29ce484222325;

/// Multiplier of the FNV-1a byte fold.
pub const FNV_PRIME: u64 = 0x100000001b3;

/// FNV-1a fold of a byte sequence onto an accumulator.
pub open spec fn spec_fold_bytes(h: u64, s: Seq<u8>) -> u64
    decreases s.len(),
{
    if s.len() == 0 {
        h
    } else {
        spec_fold_bytes(
            vstd::wrapping::u64_specs::wrapping_mul(h ^ (s[0] as u64), FNV_PRIME),
            s.skip(1),
        )
    }
}

/// The hash of a tag as a function of its identity components.
pub open spec fn spec_tag_hash(t: LinkTag) -> u64 {
    spec_fold_bytes(
        vstd::wrapping::u64_specs::wrapping_mul(
            spec_fold_bytes(FNV_OFFSET, t.transport@) ^ t.type_token,
            FNV_PRIME,
        ),
        t.key@,
    )
}

fn fold_bytes(h0: u64, s: &Vec<u8>) -> (r: u64)
    ensures
        r == spec_fold_bytes(h0, s@),
{
    let mut h: u64 = h0;
    let mut i: usize = 0;
    proof {
        assert(s@.skip(0) =~= s@);
    }
    loop
        invariant
            i <= s.len(),
            spec_fold_bytes(h0, s@) == spec_fold_bytes(h, s@.skip(i as int)),
        decreases s.len() - i,
    {
        if i == s.len() {
            return h;
        }
        proof {
            assert(s@.skip(i as int).skip(1) =~= s@.skip(i as int + 1));
        }
        h = (h ^ (s[i] as u64)).wrapping_mul(FNV_PRIME);
        i = i + 1;
    }
}

/// Two tags are equal exactly when their hashes agree and they compare equal:
/// equal tags hash and compare alike, and a comparison that answers `Equal`
/// forces all three identity components to coincide.
pub proof fn lemma_tag_eq_iff_hash_and_cmp(a: LinkTag, b: LinkTag)
    ensures
        tag_eq(a, b) <==> (spec_tag_hash(a) == spec_tag_hash(b) && spec_tag_cmp(a, b)
            == TagOrder::Equal),
{
    lemma_lex_cmp_equal(a.transport@, b.transport@);
    lemma_lex_cmp_equal(a.key@, b.key@);
}

} // verus!
