use vstd::prelude::*;

verus! {

/// How an operation of the engine can fail. Every entry point either returns
/// one exact number or exactly one of these; no sentinel values are produced.
#[derive(Clone, Copy, Debug, PartialEq, Eq, Structural)]
pub enum MathError {
    /// An asset position is out of range, or the two swap positions coincide.
    InvalidIndex,
    /// An addition, multiplication or scaling step left the checked domain.
    ArithmeticOverflow,
    /// An iterative solver exhausted its iteration budget.
    NonConvergence,
    /// A swap or withdrawal would drain a reserve, or burn shares beyond issuance.
    InsufficientLiquidity,
    /// Zero amplification, a zero reserve next to nonzero ones, an empty
    /// reserve set, duplicate deposit positions, or a zero issuance where the
    /// pool already holds value.
    DegenerateInput,
}

/// One asset's pool balance at its native precision, together with the number
/// of fractional digits that precision carries.
#[derive(Clone, Copy, Debug, PartialEq, Eq, Structural)]
pub struct AssetReserve {
    pub amount: u128,
    pub decimals: u8,
}

impl AssetReserve {
    /// Builds a reserve entry from its two plain parts.
    pub fn new(amount: u128, decimals: u8) -> (r: AssetReserve)
        ensures
            r.amount == amount && r.decimals == decimals,
    {
        AssetReserve { amount, decimals }
    }
}

/// One asset's balance as a caller hands it over: identified by an asset id
/// rather than by a position.
#[derive(Clone, Copy, Debug, PartialEq, Eq, Structural)]
pub struct AssetBalance {
    pub asset_id: u32,
    pub amount: u128,
    pub decimals: u8,
}

impl AssetBalance {
    /// The positional reserve entry this balance stands for.
    pub fn reserve(&self) -> (r: AssetReserve)
        ensures
            r.amount == self.amount && r.decimals == self.decimals,
    {
        AssetReserve { amount: self.amount, decimals: self.decimals }
    }
}

/// An asset id paired with an amount, as used for deposits.
#[derive(Clone, Copy, Debug, PartialEq, Eq, Structural)]
pub struct AssetAmount {
    pub asset_id: u32,
    pub amount: u128,
}

/// The position of the first entry with the given asset id, if any.
pub fn position_of_asset(balances: &Vec<AssetBalance>, asset_id: u32) -> (r: Option<usize>)
    ensures
        (r matches Some(i) ==> i < balances@.len() && balances@[i as int].asset_id == asset_id
            && forall|j: int| 0 <= j < i ==> balances@[j].asset_id != asset_id),
        (r is None ==> forall|i: int| 0 <= i < balances@.len() ==> balances@[i].asset_id != asset_id),
{
    let n = balances.len();
    let mut i: usize = 0;
    while i < n
        invariant
            i <= n,
            n == balances@.len(),
            forall|j: int| 0 <= j < i ==> balances@[j].asset_id != asset_id,
        decreases n - i,
    {
        if balances[i].asset_id == asset_id {
            return Some(i);
        }
        i = i + 1;
    }
    None
}

/// The ledger-side account name of a pool: the ASCII bytes of "sts" followed
/// by the share asset id in little-endian order.
pub fn pool_account_name(share_asset_id: u32) -> (r: Vec<u8>)
    ensures
        r@.len() == 7,
        r@[0] == 115u8 && r@[1] == 116u8 && r@[2] == 115u8,
        r@[3] == (share_asset_id & 0xff) as u8,
        r@[4] == ((share_asset_id >> 8) & 0xff) as u8,
        r@[5] == ((share_asset_id >> 16) & 0xff) as u8,
        r@[6] == ((share_asset_id >> 24) & 0xff) as u8,
{
    let mut name: Vec<u8> = Vec::new();
    name.push(115u8);
    name.push(116u8);
    name.push(115u8);
    name.push((share_asset_id & 0xff) as u8);
    name.push(((share_asset_id >> 8) & 0xff) as u8);
    name.push(((share_asset_id >> 16) & 0xff) as u8);
    name.push(((share_asset_id >> 24) & 0xff) as u8);
    name
}

} // verus!
