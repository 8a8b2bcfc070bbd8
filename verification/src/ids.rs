//! Identifier types for the namespace: monotonically increasing 64-bit
//! handles for inodes, blocks and leases, a 128-bit random identity for
//! storage nodes, and the process-wide allocator that mints the counters.

use vstd::prelude::*;

verus! {

use crate::numfmt::dec_digits;
use crate::numfmt::hex_digits_lower;
use crate::numfmt::u128_hex_lower;
use crate::numfmt::u64_dec_string;
use vstd::std_specs::convert::FromSpecImpl;
use vstd::string::StrSliceExecFns;
use vstd::string::StringExecFns;

/// Unique handle for a stored data block.
#[derive(Copy, Clone, Debug, PartialEq, Eq, Structural, PartialOrd, Ord, Hash)]
pub struct BlockId(pub u64);

impl BlockId {
    /// The display form of a block identifier: its value in decimal.
    pub fn to_display_string(&self) -> (r: String)
        ensures
            r@ == dec_digits(self.0 as nat),
    {
        u64_dec_string(self.0)
    }
}

impl From<u64> for BlockId {
    fn from(value: u64) -> (r: Self) {
        BlockId(value)
    }
}

impl FromSpecImpl<u64> for BlockId {
    open spec fn obeys_from_spec() -> bool {
        true
    }

    open spec fn from_spec(v: u64) -> Self {
        BlockId(v)
    }
}

impl From<BlockId> for u64 {
    fn from(value: BlockId) -> (r: Self) {
        value.0
    }
}

impl FromSpecImpl<BlockId> for u64 {
    open spec fn obeys_from_spec() -> bool {
        true
    }

    open spec fn from_spec(v: BlockId) -> Self {
        v.0
    }
}

/// Unique handle for a namespace node (file or directory).
#[derive(Copy, Clone, Debug, PartialEq, Eq, Structural, PartialOrd, Ord, Hash)]
pub struct INodeId(pub u64);

impl INodeId {
    /// The display form of an inode identifier: its value in decimal.
    pub fn to_display_string(&self) -> (r: String)
        ensures
            r@ == dec_digits(self.0 as nat),
    {
        u64_dec_string(self.0)
    }
}

impl From<u64> for INodeId {
    fn from(value: u64) -> (r: Self) {
        INodeId(value)
    }
}

impl FromSpecImpl<u64> for INodeId {
    open spec fn obeys_from_spec() -> bool {
        true
    }

    open spec fn from_spec(v: u64) -> Self {
        INodeId(v)
    }
}

impl From<INodeId> for u64 {
    fn from(value: INodeId) -> (r: Self) {
        value.0
    }
}

impl FromSpecImpl<INodeId> for u64 {
    open spec fn obeys_from_spec() -> bool {
        true
    }

    open spec fn from_spec(v: INodeId) -> Self {
        v.0
    }
}

/// Unique handle for a write lease.
#[derive(Copy, Clone, Debug, PartialEq, Eq, Structural, PartialOrd, Ord, Hash)]
pub struct LeaseId(pub u64);

impl LeaseId {
    /// The display form of a lease identifier: its value in decimal.
    pub fn to_display_string(&self) -> (r: String)
        ensures
            r@ == dec_digits(self.0 as nat),
    {
        u64_dec_string(self.0)
    }
}

impl From<u64> for LeaseId {
    fn from(value: u64) -> (r: Self) {
        LeaseId(value)
    }
}

impl FromSpecImpl<u64> for LeaseId {
    open spec fn obeys_from_spec() -> bool {
        true
    }

    open spec fn from_spec(v: u64) -> Self {
        LeaseId(v)
    }
}

impl From<LeaseId> for u64 {
    fn from(value: LeaseId) -> (r: Self) {
        value.0
    }
}

impl FromSpecImpl<LeaseId> for u64 {
    open spec fn obeys_from_spec() -> bool {
        true
    }

    open spec fn from_spec(v: LeaseId) -> Self {
        v.0
    }
}

/// The 32-digit lower-case hexadecimal form of a storage-node identity,
/// with leading zeros and no hyphens.
pub open spec fn simple_of(v: u128) -> Seq<char> {
    hex_digits_lower(v as nat, 32)
}

/// The canonical hyphenated form of a storage-node identity: the 32 hex
/// digits grouped 8-4-4-4-12, separated by `'-'`.
pub open spec fn hyphenated_of(v: u128) -> Seq<char> {
    let h = simple_of(v);
    h.subrange(0, 8) + seq!['-'] + h.subrange(8, 12) + seq!['-'] + h.subrange(12, 16) + seq!['-']
        + h.subrange(16, 20) + seq!['-'] + h.subrange(20, 32)
}

/// A character with the Unicode `White_Space` property: the set that
/// `char::is_whitespace` documents and that `str::trim` removes from the
/// ends of a string.
pub open spec fn is_whitespace_char(c: char) -> bool {
    ||| 0x09 <= (c as u32) <= 0x0d
    ||| (c as u32) == 0x20
    ||| (c as u32) == 0x85
    ||| (c as u32) == 0xa0
    ||| (c as u32) == 0x1680
    ||| 0x2000 <= (c as u32) <= 0x200a
    ||| (c as u32) == 0x2028
    ||| (c as u32) == 0x2029
    ||| (c as u32) == 0x202f
    ||| (c as u32) == 0x205f
    ||| (c as u32) == 0x3000
}

/// What `str::trim` leaves of a string: the characters with leading and
/// trailing whitespace removed.
pub uninterp spec fn trim_of(s: Seq<char>) -> Seq<char>;

/// The outcome of parsing a string as a UUID: the 128 bits of the parsed
/// value in big-endian order, or nothing when the string is not one of the
/// accepted UUID forms.
pub uninterp spec fn uuid_parse_of(s: Seq<char>) -> Option<u128>;

/// Relies on str::trim: removes leading and trailing Unicode whitespace and
/// nothing else, so a string that neither starts nor ends with whitespace
/// comes back unchanged; the result depends on the characters alone.
#[verifier::external_body]
fn trim_str(s: &str) -> (r: &str)
    ensures
        r@ == trim_of(s@),
        s@.len() > 0 && !is_whitespace_char(s@[0]) && !is_whitespace_char(s@.last()) ==> r@
            == s@,
{
    s.trim()
}

/// Relies on uuid::Uuid::parse_str: parses the hyphenated, simple, braced,
/// URN and Microsoft GUID forms; the outcome depends on the input characters
/// alone, and the value is the UUID's bits in big-endian order, as
/// uuid::Uuid::as_u128 returns them. An input that is exactly the canonical
/// lower-case hyphenated rendering of a 128-bit value parses back to that
/// value.
#[verifier::external_body]
fn parse_uuid(s: &str) -> (r: Result<u128, uuid::Error>)
    ensures
        r is Ok <==> uuid_parse_of(s@) is Some,
        r is Ok ==> uuid_parse_of(s@) == Some(r->Ok_0),
        forall|v: u128| s@ == hyphenated_of(v) ==> r is Ok && r->Ok_0 == v,
{
    match uuid::Uuid::parse_str(s) {
        Ok(u) => Ok(u.as_u128()),
        Err(e) => Err(e),
    }
}

/// The canonical hyphenated rendering of an identity is 36 characters that
/// start and end with a hexadecimal digit, so trimming leaves it unchanged.
proof fn lemma_hyphenated_ends(v: u128)
    ensures
        hyphenated_of(v).len() == 36,
        !is_whitespace_char(hyphenated_of(v)[0]),
        !is_whitespace_char(hyphenated_of(v)[35]),
{
    crate::numfmt::lemma_hex_lower_len(v as nat, 32);
    crate::numfmt::lemma_hex_lower_chars(v as nat, 32);
    let h = simple_of(v);
    assert(hyphenated_of(v)[0] == h[0]);
    assert(hyphenated_of(v)[35] == h.subrange(20, 32)[11]);
    assert(h.subrange(20, 32)[11] == h[31]);
}

/// Relies on uuid::Uuid::new_v4: a freshly drawn random version-4 UUID; its
/// version nibble is exactly 4 and its variant nibble is 8, 9, a or b, as
/// RFC 9562 fixes them.
#[verifier::external_body]
fn random_v4_bits() -> (r: u128)
    ensures
        r / 0x10000000000000000000 % 16 == 4,
        8 <= r / 0x1000000000000000 % 16 < 12,
{
    uuid::Uuid::new_v4().as_u128()
}

/// The error type of the uuid crate, returned unchanged when a
/// storage-node identity fails to parse.
#[verifier::external_type_specification]
#[verifier::external_body]
pub struct ExUuidError(uuid::Error);

/// Unique identity of a storage node: a 128-bit value drawn at registration,
/// held in big-endian order as uuid::Uuid::as_u128 returns it.
#[derive(Copy, Clone, Debug, PartialEq, Eq, Structural, PartialOrd, Ord, Hash)]
pub struct DatanodeId(pub u128);

impl DatanodeId {
    /// A fresh random identity; the version-4 bit pattern makes it nonzero.
    pub fn new_v4() -> (r: Self)
        ensures
            r.0 / 0x10000000000000000000 % 16 == 4,
            8 <= r.0 / 0x1000000000000000 % 16 < 12,
            r.0 != 0,
    {
        let v = random_v4_bits();
        Self(v)
    }

    /// The short display form: exactly the first 8 characters of the full
    /// 32-digit lower-case, unhyphenated hexadecimal encoding.
    pub fn short(&self) -> (r: String)
        ensures
            r@ == simple_of(self.0).subrange(0, 8),
            r@.len() == 8,
    {
        proof {
            crate::numfmt::lemma_hex_lower_len(self.0 as nat, 32);
        }
        let full = u128_hex_lower(self.0, 32);
        full.as_str().substring_char(0, 8).to_owned()
    }

    /// The canonical display form: the hyphenated hexadecimal encoding.
    pub fn to_display_string(&self) -> (r: String)
        ensures
            r@ == hyphenated_of(self.0),
    {
        proof {
            crate::numfmt::lemma_hex_lower_len(self.0 as nat, 32);
            reveal_strlit("-");
        }
        let full = u128_hex_lower(self.0, 32);
        let s = full.as_str();
        let mut out = s.substring_char(0, 8).to_owned();
        out.append("-");
        out.append(s.substring_char(8, 12));
        out.append("-");
        out.append(s.substring_char(12, 16));
        out.append("-");
        out.append(s.substring_char(16, 20));
        out.append("-");
        out.append(s.substring_char(20, 32));
        assert(out@ =~= hyphenated_of(self.0));
        out
    }
}

impl core::str::FromStr for DatanodeId {
    type Err = uuid::Error;

    /// Parses the whitespace-trimmed input as a UUID in any of the accepted
    /// forms; in particular, parsing an identity's canonical hyphenated
    /// display form gives back that identity.
    fn from_str(s: &str) -> (r: Result<Self, uuid::Error>)
        ensures
            r is Ok <==> uuid_parse_of(trim_of(s@)) is Some,
            r matches Ok(d) ==> uuid_parse_of(trim_of(s@)) == Some(d.0),
            forall|v: u128| s@ == hyphenated_of(v) ==> (r matches Ok(d) && d.0 == v),
    {
        let t = trim_str(s);
        let p = parse_uuid(t);
        proof {
            assert forall|v: u128| s@ == hyphenated_of(v) implies p is Ok && p->Ok_0 == v by {
                lemma_hyphenated_ends(v);
                assert(s@.last() == s@[35]);
                assert(t@ == hyphenated_of(v));
            }
        }
        match p {
            Ok(v) => Ok(DatanodeId(v)),
            Err(e) => Err(e),
        }
    }
}

/// Process-wide generator of strictly increasing identifiers, with one
/// independent counter for inodes and one for blocks. The seed is inclusive:
/// the first allocation from each counter returns exactly the seed.
pub struct IdGen {
    inode: u64,
    block: u64,
    seed_inode: Ghost<u64>,
    seed_block: Ghost<u64>,
    issued_inodes: Ghost<Seq<u64>>,
    issued_blocks: Ghost<Seq<u64>>,
}

impl IdGen {
    /// The value the next inode allocation will return.
    pub closed spec fn inode_counter(&self) -> u64 {
        self.inode
    }

    /// The value the next block allocation will return.
    pub closed spec fn block_counter(&self) -> u64 {
        self.block
    }

    /// The seed the inode counter started from.
    pub closed spec fn inode_seed(&self) -> u64 {
        self.seed_inode@
    }

    /// The seed the block counter started from.
    pub closed spec fn block_seed(&self) -> u64 {
        self.seed_block@
    }

    /// Every inode identifier this allocator has handed out, in order.
    pub closed spec fn issued_inodes(&self) -> Seq<u64> {
        self.issued_inodes@
    }

    /// Every block identifier this allocator has handed out, in order.
    pub closed spec fn issued_blocks(&self) -> Seq<u64> {
        self.issued_blocks@
    }

    /// The allocator's invariant: each counter sits at its seed plus the
    /// number of identifiers issued, and the issued identifiers are exactly
    /// the consecutive values from the seed up to the counter.
    pub closed spec fn wf(&self) -> bool {
        &&& self.seed_inode@ <= self.inode
        &&& self.issued_inodes@ == Seq::new(
            (self.inode - self.seed_inode@) as nat,
            |i: int| (self.seed_inode@ + i) as u64,
        )
        &&& self.seed_block@ <= self.block
        &&& self.issued_blocks@ == Seq::new(
            (self.block - self.seed_block@) as nat,
            |i: int| (self.seed_block@ + i) as u64,
        )
    }

    /// A fresh allocator whose next inode and next block allocations return
    /// exactly the given seeds.
    pub fn new(start_inode: u64, start_block: u64) -> (r: Self)
        ensures
            r.wf(),
            r.inode_counter() == start_inode,
            r.block_counter() == start_block,
            r.inode_seed() == start_inode,
            r.block_seed() == start_block,
            r.issued_inodes() == Seq::<u64>::empty(),
            r.issued_blocks() == Seq::<u64>::empty(),
    {
        let r = IdGen {
            inode: start_inode,
            block: start_block,
            seed_inode: Ghost(start_inode),
            seed_block: Ghost(start_block),
            issued_inodes: Ghost(Seq::empty()),
            issued_blocks: Ghost(Seq::empty()),
        };
        proof {
            assert(r.issued_inodes@ =~= Seq::new(0, |i: int| (start_inode + i) as u64));
            assert(r.issued_blocks@ =~= Seq::new(0, |i: int| (start_block + i) as u64));
        }
        r
    }

    /// Returns the current inode counter value, then advances the counter by
    /// one; every call returns a value no earlier call has returned.
    pub fn next_inode(&mut self) -> (r: INodeId)
        requires
            old(self).inode_counter() < u64::MAX,
        ensures
            r.0 == old(self).inode_counter(),
            final(self).inode_counter() == old(self).inode_counter() + 1,
            final(self).block_counter() == old(self).block_counter(),
            final(self).inode_seed() == old(self).inode_seed(),
            final(self).block_seed() == old(self).block_seed(),
            final(self).issued_inodes() == old(self).issued_inodes().push(r.0),
            final(self).issued_blocks() == old(self).issued_blocks(),
            old(self).wf() ==> final(self).wf(),
    {
        let id = self.inode;
        self.inode = self.inode + 1;
        proof {
            self.issued_inodes@ = self.issued_inodes@.push(id);
            if old(self).wf() {
                assert(self.issued_inodes@ =~= Seq::new(
                    (self.inode - self.seed_inode@) as nat,
                    |i: int| (self.seed_inode@ + i) as u64,
                ));
            }
        }
        INodeId(id)
    }

    /// Returns the current block counter value, then advances the counter by
    /// one; every call returns a value no earlier call has returned.
    pub fn next_block(&mut self) -> (r: BlockId)
        requires
            old(self).block_counter() < u64::MAX,
        ensures
            r.0 == old(self).block_counter(),
            final(self).block_counter() == old(self).block_counter() + 1,
            final(self).inode_counter() == old(self).inode_counter(),
            final(self).inode_seed() == old(self).inode_seed(),
            final(self).block_seed() == old(self).block_seed(),
            final(self).issued_blocks() == old(self).issued_blocks().push(r.0),
            final(self).issued_inodes() == old(self).issued_inodes(),
            old(self).wf() ==> final(self).wf(),
    {
        let id = self.block;
        self.block = self.block + 1;
        proof {
            self.issued_blocks@ = self.issued_blocks@.push(id);
            if old(self).wf() {
                assert(self.issued_blocks@ =~= Seq::new(
                    (self.block - self.seed_block@) as nat,
                    |i: int| (self.seed_block@ + i) as u64,
                ));
            }
        }
        BlockId(id)
    }

    /// The value the next inode allocation would return, without allocating.
    pub fn peek_inode(&self) -> (r: u64)
        ensures
            r == self.inode_counter(),
    {
        self.inode
    }

    /// The value the next block allocation would return, without allocating.
    pub fn peek_block(&self) -> (r: u64)
        ensures
            r == self.block_counter(),
    {
        self.block
    }
}

/// Uniqueness law for allocation: the identifiers an allocator has issued
/// from its inode counter never repeat, and they form exactly the contiguous
/// range from the seed up to (but excluding) the current counter value. The
/// block counter obeys the same law over its own independent range.
pub proof fn lemma_issued_ids_unique(g: &IdGen)
    requires
        g.wf(),
    ensures
        forall|i: int, j: int|
            0 <= i < j < g.issued_inodes().len() ==> g.issued_inodes()[i] != g.issued_inodes()[j],
        forall|v: u64|
            #[trigger] g.issued_inodes().contains(v) <==> g.inode_seed() <= v
                < g.inode_counter(),
        g.issued_inodes().len() == g.inode_counter() - g.inode_seed(),
        forall|i: int, j: int|
            0 <= i < j < g.issued_blocks().len() ==> g.issued_blocks()[i] != g.issued_blocks()[j],
        forall|v: u64|
            #[trigger] g.issued_blocks().contains(v) <==> g.block_seed() <= v
                < g.block_counter(),
        g.issued_blocks().len() == g.block_counter() - g.block_seed(),
{
    assert forall|v: u64| g.inode_seed() <= v < g.inode_counter() implies #[trigger] g.issued_inodes().contains(
        v,
    ) by {
        assert(g.issued_inodes()[v - g.inode_seed()] == v);
    }
    assert forall|v: u64| g.block_seed() <= v < g.block_counter() implies #[trigger] g.issued_blocks().contains(
        v,
    ) by {
        assert(g.issued_blocks()[v - g.block_seed()] == v);
    }
}

} // verus!
