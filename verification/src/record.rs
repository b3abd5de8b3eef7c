//! Deposits as the ledger keeps them.
use crate::amount::{deserialized, le_bytes, le_value, serialized, Amount, Number};
use crate::amount::{law_amount_reads_back, lemma_le_bytes_len, lemma_le_bytes_read_back};
use vstd::arithmetic::power::pow;
use vstd::prelude::*;

verus! {

/// What a later dispute needs to know of a deposit.
#[derive(Clone, Copy, Debug)]
pub struct DepositRecord {
    pub client: u16,
    pub amount: Amount,
}

/// The value of a [`DepositRecord`].
pub struct Deposit {
    pub client: u16,
    pub amount: Number,
}

impl View for DepositRecord {
    type V = Deposit;

    open spec fn view(&self) -> Deposit {
        Deposit { client: self.client, amount: self.amount@ }
    }
}

/// The eighteen bytes of a stored deposit: the client, then the amount.
pub open spec fn encoded(d: Deposit) -> Seq<u8> {
    le_bytes(d.client as nat, 2) + serialized(d.amount)
}

/// The deposit that eighteen stored bytes hold.
pub open spec fn decoded(bytes: Seq<u8>) -> Deposit {
    Deposit {
        client: le_value(bytes.subrange(0, 2)) as u16,
        amount: deserialized(bytes.subrange(2, 18)),
    }
}

/// Encode a deposit for the ledger.
pub fn encode_record(r: &DepositRecord) -> (buf: [u8; 18])
    ensures
        buf@ == encoded(r@),
{
    let a = r.amount.serialize();
    let low: u8 = (r.client % 256) as u8;
    let high: u8 = (r.client / 256) as u8;
    let buf: [u8; 18] = [
        low, high, a[0], a[1], a[2], a[3], a[4], a[5], a[6], a[7], a[8], a[9], a[10], a[11], a[12],
        a[13], a[14], a[15],
    ];
    proof {
        reveal_with_fuel(le_bytes, 3);
        assert(le_bytes(r.client as nat, 2) =~= seq![low, high]);
        assert(buf@ =~= encoded(r@));
    }
    buf
}

/// Decode a deposit from the ledger.
pub fn decode_record(buf: [u8; 18]) -> (r: DepositRecord)
    ensures
        r@ == decoded(buf@),
{
    let client: u16 = buf[0] as u16 + 256 * (buf[1] as u16);
    let bytes: [u8; 16] = [
        buf[2], buf[3], buf[4], buf[5], buf[6], buf[7], buf[8], buf[9], buf[10], buf[11], buf[12],
        buf[13], buf[14], buf[15], buf[16], buf[17],
    ];
    proof {
        reveal_with_fuel(le_value, 3);
        let head = buf@.subrange(0, 2);
        assert(le_value(head) == buf[0] as nat + 256 * buf[1] as nat);
        assert(bytes@ =~= buf@.subrange(2, 18));
    }
    DepositRecord { client, amount: Amount::deserialize(bytes) }
}

/// A deposit reads back from the ledger as what was written.
pub proof fn law_record_reads_back(d: Deposit)
    requires
        d.amount.valid(),
    ensures
        encoded(d).len() == 18,
        decoded(encoded(d)) == d,
{
    law_amount_reads_back(d.amount);
    lemma_le_bytes_len(d.client as nat, 2);
    assert(pow(256, 2) == 65536) by {
        reveal_with_fuel(pow, 3);
    }
    lemma_le_bytes_read_back(d.client as nat, 2);
    assert(encoded(d).subrange(0, 2) =~= le_bytes(d.client as nat, 2));
    assert(encoded(d).subrange(2, 18) =~= serialized(d.amount));
}

/// The value of a deposit record is that of its fields.
pub proof fn law_record_value_is_its_fields(r: DepositRecord)
    ensures
        r@.client == r.client,
        r@.amount == r.amount@,
{
}

/// A stored deposit is the client, lower byte first, and the stored amount.
pub proof fn law_stored_deposit_has_this_layout(d: Deposit)
    requires
        d.amount.valid(),
    ensures
        encoded(d).len() == 18,
        encoded(d)[0] + 256 * encoded(d)[1] == d.client,
        encoded(d).subrange(2, 18) == serialized(d.amount),
{
    law_amount_reads_back(d.amount);
    reveal_with_fuel(le_bytes, 3);
    assert(le_bytes(d.client as nat, 2).len() == 2);
    assert(encoded(d).subrange(2, 18) =~= serialized(d.amount));
}

/// A stored deposit is read by the same layout.
pub proof fn law_stored_deposit_is_read_by_layout(bytes: Seq<u8>)
    requires
        bytes.len() == 18,
    ensures
        decoded(bytes).client == bytes[0] + 256 * bytes[1],
        decoded(bytes).amount == deserialized(bytes.subrange(2, 18)),
{
    reveal_with_fuel(le_value, 3);
    let head = bytes.subrange(0, 2);
    assert(le_value(head) == bytes[0] as nat + 256 * bytes[1] as nat);
}

} // verus!
