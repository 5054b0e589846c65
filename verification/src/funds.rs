//! Coins, fee arithmetic and payment checks.
use vstd::prelude::*;

verus! {

/// An amount of one denomination.
#[derive(Clone, Debug, PartialEq, Eq)]
pub struct Coin {
    pub denom: String,
    pub amount: u128,
}

/// What a coin is: its denomination text and its amount.
pub struct CoinView {
    pub denom: Seq<char>,
    pub amount: u128,
}

impl View for Coin {
    type V = CoinView;

    open spec fn view(&self) -> CoinView {
        CoinView { denom: self.denom@, amount: self.amount }
    }
}

/// The views of a list of coins.
pub open spec fn coins_view(coins: Seq<Coin>) -> Seq<CoinView> {
    coins.map_values(|c: Coin| c@)
}

impl Coin {
    /// A coin of `amount` units of `denom`.
    pub fn new(amount: u128, denom: &str) -> (c: Coin)
        ensures
            c.amount == amount,
            c.denom@ == denom@,
    {
        Coin { denom: denom.to_owned(), amount }
    }

    /// An equal coin.
    pub fn copy_of(&self) -> (c: Coin)
        ensures
            c@ == self@,
    {
        Coin { denom: self.denom.clone(), amount: self.amount }
    }
}

/// The amount of the first coin of `denom` among `funds`, or 0 when there is none.
pub open spec fn amount_of(funds: Seq<Coin>, denom: Seq<char>) -> u128
    decreases funds.len(),
{
    if funds.len() == 0 {
        0
    } else if funds[0].denom@ == denom {
        funds[0].amount
    } else {
        amount_of(funds.drop_first(), denom)
    }
}

/// The amount of the first coin of `denom` among `funds`, or 0 when there is none.
pub fn provided_amount(funds: &[Coin], denom: &String) -> (a: u128)
    ensures
        a == amount_of(funds@, denom@),
{
    let mut i: usize = 0;
    assert(funds@.subrange(0, funds@.len() as int) =~= funds@);
    while i < funds.len()
        invariant
            i <= funds@.len(),
            amount_of(funds@, denom@) == amount_of(funds@.subrange(i as int, funds@.len() as int), denom@),
        decreases funds@.len() - i,
    {
        assert(funds@.subrange(i as int, funds@.len() as int).drop_first() =~= funds@.subrange(
            i + 1,
            funds@.len() as int,
        ));
        if funds[i].denom == *denom {
            return funds[i].amount;
        }
        i = i + 1;
    }
    0
}

/// The total that `coins` hold in `denom`.
pub open spec fn total_in(coins: Seq<Coin>, denom: Seq<char>) -> int
    decreases coins.len(),
{
    if coins.len() == 0 {
        0
    } else {
        total_in(coins.drop_last(), denom) + if coins.last().denom@ == denom {
            coins.last().amount as int
        } else {
            0
        }
    }
}

/// Whether, for each denomination required, the first provided coin of it
/// holds at least the sum of the amounts required in it.
pub open spec fn covers(provided: Seq<Coin>, required: Seq<Coin>) -> bool {
    forall|i: int|
        0 <= i < required.len() ==> amount_of(provided, (#[trigger] required[i]).denom@) >= total_in(
            required,
            required[i].denom@,
        )
}

/// A prefix of a list of coins holds no more of a denomination than the list.
proof fn lemma_total_in_prefix(coins: Seq<Coin>, denom: Seq<char>, j: int)
    requires
        0 <= j <= coins.len(),
    ensures
        0 <= total_in(coins.subrange(0, j), denom) <= total_in(coins, denom),
    decreases coins.len() - j,
{
    if j == coins.len() {
        assert(coins.subrange(0, j) =~= coins);
        lemma_total_in_nonneg(coins, denom);
    } else {
        lemma_total_in_prefix(coins.drop_last(), denom, j);
        assert(coins.drop_last().subrange(0, j) =~= coins.subrange(0, j));
    }
}

proof fn lemma_total_in_nonneg(coins: Seq<Coin>, denom: Seq<char>)
    ensures
        total_in(coins, denom) >= 0,
    decreases coins.len(),
{
    if coins.len() > 0 {
        lemma_total_in_nonneg(coins.drop_last(), denom);
    }
}

/// Whether `funds` pay `a` in `da` and `b` in `db`, the two added up when the
/// denominations agree.
pub open spec fn pays_pair(funds: Seq<Coin>, da: Seq<char>, a: int, db: Seq<char>, b: int) -> bool {
    if da == db {
        amount_of(funds, da) >= a + b
    } else {
        amount_of(funds, da) >= a && amount_of(funds, db) >= b
    }
}

/// Covering two required coins is paying their pair.
pub proof fn lemma_covers_pair(provided: Seq<Coin>, required: Seq<Coin>)
    requires
        required.len() == 2,
    ensures
        covers(provided, required) == pays_pair(
            provided,
            required[0].denom@,
            required[0].amount as int,
            required[1].denom@,
            required[1].amount as int,
        ),
{
    reveal_with_fuel(total_in, 3);
    assert(required.drop_last().drop_last() =~= Seq::<Coin>::empty());
    assert(required.drop_last().last() == required[0]);
    let d0 = required[0].denom@;
    let d1 = required[1].denom@;
    assert(total_in(required, d0) == required[0].amount + if d1 == d0 {
        required[1].amount as int
    } else {
        0
    });
    assert(total_in(required, d1) == required[1].amount + if d1 == d0 {
        required[0].amount as int
    } else {
        0
    });
    if covers(provided, required) {
        assert(amount_of(provided, required[0].denom@) >= total_in(required, required[0].denom@));
        assert(amount_of(provided, required[1].denom@) >= total_in(required, required[1].denom@));
    }
}

/// The total that `coins` hold in `denom`, or `None` when it exceeds `u128`.
fn total_amount(coins: &[Coin], denom: &String) -> (r: Option<u128>)
    ensures
        match r {
            Some(t) => t == total_in(coins@, denom@),
            None => total_in(coins@, denom@) > u128::MAX,
        },
{
    let mut acc: u128 = 0;
    let mut j: usize = 0;
    assert(coins@.subrange(0, 0) =~= Seq::<Coin>::empty());
    while j < coins.len()
        invariant
            j <= coins@.len(),
            acc == total_in(coins@.subrange(0, j as int), denom@),
        decreases coins@.len() - j,
    {
        assert(coins@.subrange(0, j + 1).drop_last() =~= coins@.subrange(0, j as int));
        if coins[j].denom == *denom {
            if acc > u128::MAX - coins[j].amount {
                proof {
                    lemma_total_in_prefix(coins@, denom@, j + 1);
                }
                return None;
            }
            acc = acc + coins[j].amount;
        }
        j = j + 1;
    }
    assert(coins@.subrange(0, coins@.len() as int) =~= coins@);
    Some(acc)
}

/// Whether the provided funds cover what is required, denomination by
/// denomination, the required amounts of one denomination added up.
pub fn has_sufficient_funds(provided: &[Coin], required: &[Coin]) -> (b: bool)
    ensures
        b == covers(provided@, required@),
{
    let mut i: usize = 0;
    while i < required.len()
        invariant
            i <= required@.len(),
            forall|j: int|
                0 <= j < i ==> amount_of(provided@, (#[trigger] required@[j]).denom@) >= total_in(
                    required@,
                    required@[j].denom@,
                ),
        decreases required@.len() - i,
    {
        let have = provided_amount(provided, &required[i].denom);
        match total_amount(required, &required[i].denom) {
            Some(t) => {
                if have < t {
                    return false;
                }
            },
            None => {
                return false;
            },
        }
        i = i + 1;
    }
    true
}

/// A coin of the same denomination with its amount multiplied.
pub fn multiply_coin(coin: &Coin, multiplier: u128) -> (c: Coin)
    requires
        coin.amount * multiplier <= u128::MAX,
    ensures
        c.denom@ == coin.denom@,
        c.amount == coin.amount * multiplier,
{
    Coin { denom: coin.denom.clone(), amount: coin.amount * multiplier }
}

/// Why a payment was refused.
#[derive(Clone, Debug, PartialEq, Eq)]
pub enum PaymentError {
    MissingDenom(String),
    ExtraDenom(String),
    MultipleDenoms,
    NoFunds,
    NonPayable,
}

/// The outcome that `must_pay` owes for a list of funds and a denomination.
pub open spec fn must_pay_result(funds: Seq<Coin>, denom: Seq<char>) -> Result<u128, PaymentError> {
    if funds.len() == 0 {
        Err(PaymentError::NoFunds)
    } else if funds.len() > 1 {
        Err(PaymentError::MultipleDenoms)
    } else if funds[0].amount == 0 {
        Err(PaymentError::NoFunds)
    } else if funds[0].denom@ != denom {
        Err(PaymentError::MissingDenom(arbitrary()))
    } else {
        Ok(funds[0].amount)
    }
}

/// Whether two payment results agree, the denomination text of `MissingDenom`
/// being that of `denom`.
pub open spec fn same_payment_result(
    r: Result<u128, PaymentError>,
    expected: Result<u128, PaymentError>,
    denom: Seq<char>,
) -> bool {
    match (r, expected) {
        (Ok(a), Ok(b)) => a == b,
        (Err(PaymentError::MissingDenom(d)), Err(PaymentError::MissingDenom(_))) => d@ == denom,
        (Err(PaymentError::NoFunds), Err(PaymentError::NoFunds)) => true,
        (Err(PaymentError::MultipleDenoms), Err(PaymentError::MultipleDenoms)) => true,
        _ => false,
    }
}

/// Calls `cw_utils::must_pay` on the given funds.
///
/// Trusted: per cw-utils' source, `must_pay` asks for exactly one coin, of
/// non-zero amount (else `NoFunds`, or `MultipleDenoms` for more than one
/// coin), whose denomination is `denom` (else `MissingDenom(denom)`), and
/// returns its amount. The sender is not read by `must_pay`.
#[verifier::external_body]
pub(crate) fn must_pay(funds: &Vec<Coin>, denom: &str) -> (r: Result<u128, PaymentError>)
    ensures
        same_payment_result(r, must_pay_result(funds@, denom@), denom@),
{
    let info = cosmwasm_std::MessageInfo {
        sender: cosmwasm_std::Addr::unchecked(""),
        funds: funds.iter().map(|c| cosmwasm_std::Coin::new(c.amount, c.denom.clone())).collect(),
    };
    match cw_utils::must_pay(&info, denom) {
        Ok(a) => Ok(a.u128()),
        Err(cw_utils::PaymentError::MissingDenom(d)) => Err(PaymentError::MissingDenom(d)),
        Err(cw_utils::PaymentError::ExtraDenom(d)) => Err(PaymentError::ExtraDenom(d)),
        Err(cw_utils::PaymentError::MultipleDenoms {}) => Err(PaymentError::MultipleDenoms),
        Err(cw_utils::PaymentError::NoFunds {}) => Err(PaymentError::NoFunds),
        Err(cw_utils::PaymentError::NonPayable {}) => Err(PaymentError::NonPayable),
    }
}

/// Whether the first coin sent holds at least `price` (no denomination check).
pub open spec fn first_coin_covers(funds: Seq<Coin>, price: u128) -> bool {
    funds.len() > 0 && funds[0].amount >= price
}

/// Whether the first coin sent holds at least `price` (no denomination check).
pub fn first_coin_pays(funds: &Vec<Coin>, price: u128) -> (b: bool)
    ensures
        b == first_coin_covers(funds@, price),
{
    !funds.is_empty() && funds[0].amount >= price
}

} // verus!
