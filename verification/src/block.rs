//! Blocks: their content, the record that is hashed, and the checks that
//! tie a block to the one before it.

use crate::clock::utc_now_text;
use crate::digest::{
    digest_text, hash_bytes, is_hex_digit, lemma_digest_text_differs, sha256_collision,
};
use crate::text::{decimal, lemma_decimal_has_no_separator, lemma_decimal_injective, push_decimal};
use vstd::prelude::*;
use vstd::string::*;
use vstd::utf8::*;

verus! {

/// One entry of the ledger.
#[derive(Debug)]
pub struct Block {
    /// Position in the chain; the genesis block has index 0.
    pub index: u64,
    /// Creation time as text.
    pub timestamp: String,
    /// The measurement that the caller supplied.
    pub payload: u64,
    /// Digest of this block's record, computed when the block was made.
    pub hash: String,
    /// The `hash` of the block before this one; empty for the genesis block.
    pub prev_hash: String,
}

/// What a block is, as mathematical values.
pub struct BlockView {
    pub index: nat,
    pub timestamp: Seq<char>,
    pub payload: nat,
    pub hash: Seq<char>,
    pub prev_hash: Seq<char>,
}

impl View for Block {
    type V = BlockView;

    open spec fn view(&self) -> BlockView {
        BlockView {
            index: self.index as nat,
            timestamp: self.timestamp@,
            payload: self.payload as nat,
            hash: self.hash@,
            prev_hash: self.prev_hash@,
        }
    }
}

/// What stands after each number in a record.
pub open spec fn separator() -> Seq<char> {
    seq![':']
}

/// A number in front of a text: its decimal digits, `:`, then the text.
pub open spec fn numbered(n: nat, rest: Seq<char>) -> Seq<char> {
    decimal(n) + separator() + rest
}

/// The text that is hashed for a block. It is laid out so that it can be
/// read back in one way only: the index, the payload and the number of
/// characters of the timestamp, each in decimal and followed by `:`, then
/// the timestamp, then the previous hash. The block's own `hash` is not
/// part of it.
pub open spec fn record(b: BlockView) -> Seq<char> {
    numbered(
        b.index,
        numbered(b.payload, numbered(b.timestamp.len(), b.timestamp + b.prev_hash)),
    )
}

/// The bytes that are hashed for a block: its record in UTF-8.
pub open spec fn record_bytes(b: BlockView) -> Seq<u8> {
    encode_utf8(record(b))
}

/// The digest of a block: SHA-256 over the UTF-8 bytes of its record, in
/// lower-case hexadecimal.
pub open spec fn block_digest(b: BlockView) -> Seq<char> {
    digest_text(record_bytes(b))
}

/// Whether two blocks agree on everything that is hashed.
pub open spec fn same_content(a: BlockView, b: BlockView) -> bool {
    &&& a.index == b.index
    &&& a.timestamp == b.timestamp
    &&& a.payload == b.payload
    &&& a.prev_hash == b.prev_hash
}

/// Whether the hash of `tampered` was computed anew after `candidate` was
/// changed into it: it is no longer the hash that `candidate` carries, and
/// it is the digest of `tampered`.
pub open spec fn hash_recomputed(candidate: BlockView, tampered: BlockView) -> bool {
    tampered.hash != candidate.hash && tampered.hash == block_digest(tampered)
}

/// The block with its `hash` replaced by `digest`.
pub open spec fn with_hash(b: BlockView, digest: Seq<char>) -> BlockView {
    BlockView { hash: digest, ..b }
}

/// Whether the block carries the digest of its own record.
pub open spec fn is_sealed(b: BlockView) -> bool {
    b.hash == block_digest(b)
}

/// Whether `next` names `prev` as the block before it: the index goes up by
/// one and `prev_hash` repeats the hash of `prev`.
pub open spec fn linked(prev: BlockView, next: BlockView) -> bool {
    &&& next.index == prev.index + 1
    &&& next.prev_hash == prev.hash
}

/// Whether `next` may be appended after `prev`.
pub open spec fn valid_successor(prev: BlockView, next: BlockView) -> bool {
    &&& linked(prev, next)
    &&& is_sealed(next)
}

/// The block that follows `prev` with the given content, before it is hashed.
pub open spec fn unsealed_successor(
    prev: BlockView,
    payload: nat,
    timestamp: Seq<char>,
) -> BlockView {
    BlockView {
        index: prev.index + 1,
        timestamp,
        payload,
        hash: Seq::empty(),
        prev_hash: prev.hash,
    }
}

/// The block that follows `prev` with the given content.
pub open spec fn successor(prev: BlockView, payload: nat, timestamp: Seq<char>) -> BlockView {
    let draft = unsealed_successor(prev, payload, timestamp);
    with_hash(draft, block_digest(draft))
}

/// The first block of a chain, before it is hashed.
pub open spec fn unsealed_genesis(timestamp: Seq<char>) -> BlockView {
    BlockView {
        index: 0,
        timestamp,
        payload: 0,
        hash: Seq::empty(),
        prev_hash: Seq::empty(),
    }
}

/// The first block of a chain created at `timestamp`.
pub open spec fn genesis(timestamp: Seq<char>) -> BlockView {
    let draft = unsealed_genesis(timestamp);
    with_hash(draft, block_digest(draft))
}

impl Clone for Block {
    fn clone(&self) -> (copy: Self)
        ensures
            copy@ == self@,
    {
        Block {
            index: self.index,
            timestamp: self.timestamp.clone(),
            payload: self.payload,
            hash: self.hash.clone(),
            prev_hash: self.prev_hash.clone(),
        }
    }
}

impl Default for Block {
    fn default() -> (block: Self)
        ensures
            block@ == unsealed_genesis(Seq::empty()),
    {
        Block {
            index: 0,
            timestamp: String::new(),
            payload: 0,
            hash: String::new(),
            prev_hash: String::new(),
        }
    }
}

/// Builds the text that is hashed for `block`.
pub fn block_record(block: &Block) -> (text: String)
    ensures
        text@ == record(block@),
{
    proof {
        reveal_strlit(":");
        assert(":"@ =~= separator());
    }
    let timestamp = block.timestamp.as_str();
    let mut text = String::new();
    push_decimal(&mut text, block.index);
    text.append(":");
    push_decimal(&mut text, block.payload);
    text.append(":");
    push_decimal(&mut text, timestamp.unicode_len() as u64);
    text.append(":");
    text.append(timestamp);
    text.append(block.prev_hash.as_str());
    assert(text@ =~= record(block@));
    text
}

/// Computes the digest of `block` from its index, timestamp, payload and
/// previous hash. The result is 64 lower-case hexadecimal characters.
pub fn calculate_hash(block: &Block) -> (digest: String)
    ensures
        digest@ == block_digest(block@),
        digest@.len() == 64,
        forall|i: int| 0 <= i < 64 ==> is_hex_digit(#[trigger] digest@[i]),
{
    let text = block_record(block);
    hash_bytes(text.as_str().as_bytes())
}

/// Stores `digest` as the hash of `block`.
pub fn seal(block: Block, digest: String) -> (sealed: Block)
    ensures
        sealed@ == with_hash(block@, digest@),
{
    Block {
        index: block.index,
        timestamp: block.timestamp,
        payload: block.payload,
        hash: digest,
        prev_hash: block.prev_hash,
    }
}

/// Lays out the block that follows `old_block`, with an empty hash.
pub fn draft_successor(old_block: &Block, payload: u64, timestamp: String) -> (draft: Block)
    requires
        old_block.index < u64::MAX,
    ensures
        draft@ == unsealed_successor(old_block@, payload as nat, timestamp@),
{
    Block {
        index: old_block.index + 1,
        timestamp,
        payload,
        hash: String::new(),
        prev_hash: old_block.hash.clone(),
    }
}

/// Lays out the first block of a chain, with an empty hash.
pub fn draft_genesis(timestamp: String) -> (draft: Block)
    ensures
        draft@ == unsealed_genesis(timestamp@),
{
    Block { index: 0, timestamp, payload: 0, hash: String::new(), prev_hash: String::new() }
}

/// Builds the block that follows `old_block`, stamped with `timestamp`.
///
/// The index of `old_block` must leave room for one more.
pub fn generate_block_at(old_block: &Block, payload: u64, timestamp: String) -> (new_block: Block)
    requires
        old_block.index < u64::MAX,
    ensures
        new_block@ == successor(old_block@, payload as nat, timestamp@),
        new_block.index == old_block.index + 1,
        new_block.timestamp@ == timestamp@,
        new_block.payload == payload,
        new_block.prev_hash@ == old_block.hash@,
        new_block.hash@ == block_digest(new_block@),
        valid_successor(old_block@, new_block@),
{
    let draft = draft_successor(old_block, payload, timestamp);
    let digest = calculate_hash(&draft);
    proof {
        lemma_seal_keeps_digest(draft@, digest@);
    }
    seal(draft, digest)
}

/// Builds the block that follows `old_block`, stamped with the current time.
///
/// Everything but the timestamp is fixed by the arguments: the result is
/// the successor of `old_block` for the timestamp that it carries.
pub fn generate_block(old_block: &Block, payload: u64) -> (new_block: Block)
    requires
        old_block.index < u64::MAX,
    ensures
        new_block@ == successor(old_block@, payload as nat, new_block@.timestamp),
        new_block.index == old_block.index + 1,
        new_block.payload == payload,
        new_block.prev_hash@ == old_block.hash@,
        new_block.hash@ == block_digest(new_block@),
        valid_successor(old_block@, new_block@),
{
    generate_block_at(old_block, payload, utc_now_text())
}

/// Builds the first block of a chain, stamped with `timestamp`: index 0,
/// payload 0, no previous hash, and the digest of that record as its hash.
pub fn genesis_block_at(timestamp: String) -> (block: Block)
    ensures
        block@ == genesis(timestamp@),
        block.index == 0,
        block.payload == 0,
        block.prev_hash@ == Seq::<char>::empty(),
        block.hash@ == block_digest(block@),
{
    let draft = draft_genesis(timestamp);
    let digest = calculate_hash(&draft);
    proof {
        lemma_seal_keeps_digest(draft@, digest@);
    }
    seal(draft, digest)
}

/// Builds the first block of a chain, stamped with the current time.
pub fn genesis_block() -> (block: Block)
    ensures
        block@ == genesis(block@.timestamp),
        block.index == 0,
        block.payload == 0,
        block.prev_hash@ == Seq::<char>::empty(),
        block.hash@ == block_digest(block@),
{
    genesis_block_at(utc_now_text())
}

/// Tests the linkage of `new_block` to `old_block`: first the index, then
/// the previous hash.
pub fn is_linked(new_block: &Block, old_block: &Block) -> (ok: bool)
    ensures
        ok == linked(old_block@, new_block@),
{
    if old_block.index == u64::MAX || old_block.index + 1 != new_block.index {
        return false;
    }
    old_block.hash == new_block.prev_hash
}

/// Tests whether `digest` is the hash that `block` carries.
pub fn is_sealed_with(block: &Block, digest: &String) -> (ok: bool)
    ensures
        ok == (block@.hash == digest@),
{
    *digest == block.hash
}

/// Decides whether `new_block` may be appended after `old_block`.
///
/// Three checks, stopping at the first that fails: the index is one more
/// than that of `old_block`; `prev_hash` equals the hash of `old_block`;
/// the digest computed afresh from `new_block` equals the hash it carries.
pub fn is_block_valid(new_block: &Block, old_block: &Block) -> (ok: bool)
    ensures
        ok == valid_successor(old_block@, new_block@),
        new_block@.index != old_block@.index + 1 ==> !ok,
        new_block@.prev_hash != old_block@.hash ==> !ok,
        new_block@.hash != block_digest(new_block@) ==> !ok,
{
    if !is_linked(new_block, old_block) {
        return false;
    }
    let digest = calculate_hash(new_block);
    is_sealed_with(new_block, &digest)
}

/// The hash field does not enter the record, so storing a digest in a block
/// leaves the digest of the block as it was.
pub proof fn lemma_seal_keeps_digest(b: BlockView, digest: Seq<char>)
    ensures
        record(with_hash(b, digest)) == record(b),
        block_digest(with_hash(b, digest)) == block_digest(b),
{
}

/// Hashing is a function of the content: blocks that agree on index,
/// timestamp, payload and previous hash have the same record and the same
/// digest, whatever hash they carry.
pub proof fn lemma_same_content_same_digest(a: BlockView, b: BlockView)
    requires
        same_content(a, b),
    ensures
        record(a) == record(b),
        block_digest(a) == block_digest(b),
{
}

/// Text that begins with a run free of `:` followed by `:` can be split
/// there in one way only.
proof fn lemma_split_at_separator(
    head_a: Seq<char>,
    rest_a: Seq<char>,
    head_b: Seq<char>,
    rest_b: Seq<char>,
)
    requires
        head_a + separator() + rest_a == head_b + separator() + rest_b,
        !head_a.contains(':'),
        !head_b.contains(':'),
    ensures
        head_a == head_b,
        rest_a == rest_b,
{
    let a = head_a + separator() + rest_a;
    let b = head_b + separator() + rest_b;
    if head_a.len() < head_b.len() {
        assert(a[head_a.len() as int] == ':');
        assert(b[head_a.len() as int] == head_b[head_a.len() as int]);
        assert(head_b.contains(head_b[head_a.len() as int]));
    } else if head_b.len() < head_a.len() {
        assert(b[head_b.len() as int] == ':');
        assert(a[head_b.len() as int] == head_a[head_b.len() as int]);
        assert(head_a.contains(head_a[head_b.len() as int]));
    } else {
        assert(head_a =~= a.take(head_a.len() as int));
        assert(head_b =~= b.take(head_b.len() as int));
        assert(rest_a =~= a.skip(head_a.len() as int + 1));
        assert(rest_b =~= b.skip(head_b.len() as int + 1));
    }
}

/// A numbered text can be read back in one way only.
pub proof fn lemma_numbered_injective(n: nat, rest: Seq<char>, m: nat, other: Seq<char>)
    requires
        numbered(n, rest) == numbered(m, other),
    ensures
        n == m,
        rest == other,
{
    lemma_decimal_has_no_separator(n);
    lemma_decimal_has_no_separator(m);
    lemma_split_at_separator(decimal(n), rest, decimal(m), other);
    lemma_decimal_injective(n, m);
}

/// Two texts of the same length, each followed by more text, are equal if
/// the whole is, and so is what follows them.
proof fn lemma_split_at_length(
    head_a: Seq<char>,
    rest_a: Seq<char>,
    head_b: Seq<char>,
    rest_b: Seq<char>,
)
    requires
        head_a + rest_a == head_b + rest_b,
        head_a.len() == head_b.len(),
    ensures
        head_a == head_b,
        rest_a == rest_b,
{
    assert(head_a =~= (head_a + rest_a).take(head_a.len() as int));
    assert(head_b =~= (head_b + rest_b).take(head_b.len() as int));
    assert(rest_a =~= (head_a + rest_a).skip(head_a.len() as int));
    assert(rest_b =~= (head_b + rest_b).skip(head_b.len() as int));
}

/// The record fixes the content: two blocks with the same record agree on
/// index, timestamp, payload and previous hash.
pub proof fn lemma_record_fixes_content(a: BlockView, b: BlockView)
    requires
        record(a) == record(b),
    ensures
        same_content(a, b),
{
    let tail_a = a.timestamp + a.prev_hash;
    let tail_b = b.timestamp + b.prev_hash;
    let sized_a = numbered(a.timestamp.len(), tail_a);
    let sized_b = numbered(b.timestamp.len(), tail_b);
    lemma_numbered_injective(
        a.index,
        numbered(a.payload, sized_a),
        b.index,
        numbered(b.payload, sized_b),
    );
    lemma_numbered_injective(a.payload, sized_a, b.payload, sized_b);
    lemma_numbered_injective(a.timestamp.len(), tail_a, b.timestamp.len(), tail_b);
    lemma_split_at_length(a.timestamp, a.prev_hash, b.timestamp, b.prev_hash);
}

/// Any change of index, timestamp, payload or previous hash, of one of
/// them or of several at once, changes the record, and with it the bytes
/// that are hashed.
pub proof fn lemma_changed_content_changes_record(a: BlockView, b: BlockView)
    requires
        !same_content(a, b),
    ensures
        record(a) != record(b),
        record_bytes(a) != record_bytes(b),
{
    if record(a) == record(b) {
        lemma_record_fixes_content(a, b);
    }
    if record_bytes(a) == record_bytes(b) {
        encode_utf8_decode_utf8(record(a));
        encode_utf8_decode_utf8(record(b));
    }
}

/// Any change of index, timestamp, payload or previous hash changes the
/// digest, unless the old and the new record collide under SHA-256.
pub proof fn lemma_changed_content_changes_digest(a: BlockView, b: BlockView)
    requires
        !same_content(a, b),
        !sha256_collision(record_bytes(a), record_bytes(b)),
    ensures
        block_digest(a) != block_digest(b),
{
    lemma_changed_content_changes_record(a, b);
    lemma_digest_text_differs(record_bytes(a), record_bytes(b));
}

/// A block whose content was changed while it kept its hash is no longer
/// sealed, unless the old and the new record collide under SHA-256.
pub proof fn lemma_changed_content_breaks_seal(sealed: BlockView, tampered: BlockView)
    requires
        is_sealed(sealed),
        tampered.hash == sealed.hash,
        !same_content(sealed, tampered),
        !sha256_collision(record_bytes(sealed), record_bytes(tampered)),
    ensures
        !is_sealed(tampered),
{
    lemma_changed_content_changes_digest(sealed, tampered);
}

/// Tampering is rejected: if `candidate` is a valid successor of
/// `reference` and is then changed in any way, in one field or in several,
/// without its hash being computed anew, the result is not a valid
/// successor of `reference`.
///
/// A change of index or previous hash breaks the linkage. A change of the
/// hash alone leaves a hash that is not the digest. A change of timestamp
/// or payload under the old hash is caught by the digest, unless the old
/// and the new record collide under SHA-256: that is the one case left
/// out.
pub proof fn lemma_tampering_is_rejected(
    reference: BlockView,
    candidate: BlockView,
    tampered: BlockView,
)
    requires
        valid_successor(reference, candidate),
        tampered != candidate,
        !hash_recomputed(candidate, tampered),
        linked(reference, tampered) && tampered.hash == candidate.hash ==> !sha256_collision(
            record_bytes(candidate),
            record_bytes(tampered),
        ),
    ensures
        !valid_successor(reference, tampered),
{
    if linked(reference, tampered) {
        if same_content(candidate, tampered) {
            lemma_same_content_same_digest(candidate, tampered);
        } else if tampered.hash == candidate.hash {
            lemma_changed_content_breaks_seal(candidate, tampered);
        }
    }
}

/// Bad linkage is rejected whatever the hash: a block whose index is not
/// one more than that of `reference`, or whose previous hash is not the
/// hash of `reference`, is no valid successor of it.
pub proof fn lemma_bad_linkage_is_rejected(reference: BlockView, candidate: BlockView)
    requires
        candidate.index != reference.index + 1 || candidate.prev_hash != reference.hash,
    ensures
        !valid_successor(reference, candidate),
{
}

/// What `generate_block_at` builds is a valid successor of the block it was
/// built on.
pub proof fn lemma_successor_is_valid(prev: BlockView, payload: nat, timestamp: Seq<char>)
    ensures
        valid_successor(prev, successor(prev, payload, timestamp)),
        successor(prev, payload, timestamp).index == prev.index + 1,
        successor(prev, payload, timestamp).payload == payload,
        successor(prev, payload, timestamp).timestamp == timestamp,
        successor(prev, payload, timestamp).prev_hash == prev.hash,
{
    let draft = unsealed_successor(prev, payload, timestamp);
    lemma_seal_keeps_digest(draft, block_digest(draft));
}

/// A genesis block has index 0, payload 0, no previous hash, and carries
/// the digest of its own record.
pub proof fn lemma_genesis_is_sealed(timestamp: Seq<char>)
    ensures
        is_sealed(genesis(timestamp)),
        genesis(timestamp).index == 0,
        genesis(timestamp).payload == 0,
        genesis(timestamp).timestamp == timestamp,
        genesis(timestamp).prev_hash == Seq::<char>::empty(),
{
    let draft = unsealed_genesis(timestamp);
    lemma_seal_keeps_digest(draft, block_digest(draft));
}

} // verus!
