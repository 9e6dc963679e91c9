//! Plain-value models of what the program reads from accounts and what it
//! hands to the runtime.
use vstd::prelude::*;

verus! {

/// An account as the program sees it: its address, the program that owns
/// it, and its data.
pub struct AccountData {
    pub key: [u8; 32],
    pub owner: [u8; 32],
    pub data: Vec<u8>,
}

/// The fields of a token account that the program reads.
pub struct TokenAccount {
    pub mint: [u8; 32],
    pub owner: [u8; 32],
    pub amount: u64,
}

/// The fields of a token-swap pool that the program reads, together with
/// the pool's raw state, from which its curve and fees are read.
pub struct SwapPool {
    pub token_program_id: [u8; 32],
    pub token_a_account: [u8; 32],
    pub state: Vec<u8>,
}

/// An account that an instruction refers to, and how.
pub struct AccountRole {
    pub key: [u8; 32],
    pub is_signer: bool,
    pub is_writable: bool,
}

/// An instruction for another program.
pub struct InstructionData {
    pub program_id: [u8; 32],
    pub accounts: Vec<AccountRole>,
    pub data: Vec<u8>,
}

/// The value of little-endian bytes.
pub open spec fn le_value(s: Seq<u8>) -> nat
    decreases s.len(),
{
    if s.len() == 0 {
        0
    } else {
        s[0] as nat + 256 * le_value(s.drop_first())
    }
}

/// The `n` little-endian bytes of `x`.
pub open spec fn le_bytes(x: nat, n: nat) -> Seq<u8>
    decreases n,
{
    if n == 0 {
        seq![]
    } else {
        seq![(x % 256) as u8] + le_bytes(x / 256, (n - 1) as nat)
    }
}

/// Writing the value of little-endian bytes back as that many bytes gives
/// the same bytes.
pub proof fn lemma_le_roundtrip(s: Seq<u8>)
    ensures
        le_bytes(le_value(s), s.len()) == s,
    decreases s.len(),
{
    if s.len() > 0 {
        let rest = s.drop_first();
        lemma_le_roundtrip(rest);
        let v = le_value(rest) as int;
        let x = le_value(s) as int;
        assert(x == v * 256 + s[0]);
        vstd::arithmetic::div_mod::lemma_fundamental_div_mod_converse(x, 256, v, s[0] as int);
        assert(le_bytes(le_value(s), s.len()) =~= seq![s[0]] + rest);
        assert(seq![s[0]] + rest =~= s);
    }
}

/// The largest value of `n` little-endian bytes.
pub open spec fn le_max(n: nat) -> nat
    decreases n,
{
    if n == 0 {
        0
    } else {
        255 + 256 * le_max((n - 1) as nat)
    }
}

/// Little-endian bytes are worth at most `le_max` of their length; eight of
/// them fit in a `u64`.
pub proof fn lemma_le_value_bound(s: Seq<u8>)
    ensures
        le_value(s) <= le_max(s.len()),
        s.len() == 8 ==> le_value(s) <= u64::MAX,
    decreases s.len(),
{
    if s.len() > 0 {
        lemma_le_value_bound(s.drop_first());
    }
    assert(le_max(8) == u64::MAX) by {
        reveal_with_fuel(le_max, 9);
    }
}

/// `role` refers to `key` in the given way.
pub open spec fn has_role(role: AccountRole, key: Seq<u8>, is_signer: bool, is_writable: bool) -> bool {
    &&& role.key@ == key
    &&& role.is_signer == is_signer
    &&& role.is_writable == is_writable
}

/// Whether two addresses are the same.
pub fn keys_equal(a: &[u8; 32], b: &[u8; 32]) -> (eq: bool)
    ensures
        eq == (a@ == b@),
{
    let mut i: usize = 0;
    while i < 32
        invariant
            i <= 32,
            a@.len() == 32,
            b@.len() == 32,
            forall|j: int| 0 <= j < i ==> a@[j] == b@[j],
        decreases 32 - i,
    {
        if a[i] != b[i] {
            return false;
        }
        i = i + 1;
    }
    assert(a@ =~= b@);
    true
}

} // verus!
