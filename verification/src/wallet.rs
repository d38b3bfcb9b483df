use vstd::prelude::*;

use crate::blockchain::Blockchain;
use crate::selection::{
    entries_total, entries_view, lemma_entries_total_prefix, lemma_selection_total, selection_from, sorted_entries_for_address,
};
use crate::transaction::{OutPoint, OutPointView, TxOut, TxOutView};

verus! {

/// What paying `amount` plus `fee` from one address to another would look like.
#[derive(Debug)]
pub struct WalletPreview {
    pub valid: bool,
    pub amount: u64,
    pub fee: u64,
    pub total_selected: u64,
    pub change: u64,
    pub selected_utxos: Vec<(OutPoint, TxOut)>,
    pub outputs: Vec<TxOut>,
}

/// The outputs of the payment: `amount` to the payee, then the change, if any, back
/// to the payer.
pub open spec fn payment_outputs(to: Seq<char>, from: Seq<char>, amount: u64, change: u64) -> Seq<TxOutView> {
    if change > 0 {
        seq![TxOutView { value: amount, address: to }, TxOutView { value: change, address: from }]
    } else {
        seq![TxOutView { value: amount, address: to }]
    }
}

/// Previews a payment of `amount` with `fee` (0 when absent) from `from_address` to
/// `to_address`: the outputs of `from_address` that `select_utxos_for_amount` picks
/// for amount + fee (saturating at 2^64 - 1), none when it picks nothing; their total;
/// the change above the required sum; the payment's outputs; and whether the total
/// covers the required sum.
pub fn preview_wallet_transaction(
    chain: &Blockchain,
    from_address: &str,
    to_address: &str,
    amount: u64,
    fee: Option<u64>,
) -> (p: WalletPreview)
    ensures
        ({
            let fee_value: u64 = match fee {
                Some(f) => f,
                None => 0,
            };
            let required: u64 = if amount + fee_value > u64::MAX {
                u64::MAX
            } else {
                (amount + fee_value) as u64
            };
            &&& p.amount == amount
            &&& p.fee == fee_value
            &&& exists|s: Seq<(OutPointView, TxOutView)>|
                #[trigger] sorted_entries_for_address(s, chain.utxo_set.listing(), from_address@)
                    && entries_view(p.selected_utxos@) == match selection_from(s, required) {
                    Some(v) => v,
                    None => Seq::empty(),
                }
            &&& p.total_selected == entries_total(entries_view(p.selected_utxos@))
            &&& p.change == if p.total_selected >= required {
                p.total_selected - required
            } else {
                0
            }
            &&& p.outputs@.map_values(|o: TxOut| o@) == payment_outputs(
                to_address@,
                from_address@,
                amount,
                p.change,
            )
            &&& p.valid == (p.total_selected >= required)
        }),
{
    let fee_value: u64 = match fee {
        Some(f) => f,
        None => 0,
    };
    let required = amount.saturating_add(fee_value);
    let picked = chain.select_utxos_for_amount(from_address, required);
    let ghost s = choose|s: Seq<(OutPointView, TxOutView)>|
        #[trigger] sorted_entries_for_address(s, chain.utxo_set.listing(), from_address@) && match picked {
            Some(v) => selection_from(s, required) == Some(entries_view(v@)),
            None => selection_from(s, required) is None,
        };
    proof {
        if picked is Some {
            assert(s.take(0) =~= Seq::<(OutPointView, TxOutView)>::empty());
            lemma_selection_total(s, required, 0, 0);
        }
    }
    let selected = match picked {
        Some(v) => v,
        None => Vec::new(),
    };
    let ghost sv = entries_view(selected@);
    proof {
        if picked is None {
            assert(sv =~= Seq::<(OutPointView, TxOutView)>::empty());
        }
    }
    let mut total_selected: u64 = 0;
    let mut i: usize = 0;
    while i < selected.len()
        invariant
            i <= selected@.len(),
            sv == entries_view(selected@),
            entries_total(sv) <= u64::MAX,
            total_selected == entries_total(sv.take(i as int)),
        decreases selected@.len() - i,
    {
        proof {
            assert(sv[i as int] == (selected@[i as int].0@, selected@[i as int].1@));
            assert(sv.take(i + 1).drop_last() =~= sv.take(i as int));
            lemma_entries_total_prefix(sv, i + 1);
        }
        total_selected = total_selected + selected[i].1.value;
        i = i + 1;
    }
    proof {
        assert(sv.take(i as int) =~= sv);
    }
    let change = total_selected.saturating_sub(required);
    let mut outputs: Vec<TxOut> = Vec::new();
    outputs.push(TxOut { value: amount, address: String::from_str(to_address) });
    if change > 0 {
        outputs.push(TxOut { value: change, address: String::from_str(from_address) });
    }
    proof {
        assert(outputs@.map_values(|o: TxOut| o@) =~= payment_outputs(to_address@, from_address@, amount, change));
    }
    WalletPreview {
        valid: total_selected >= required,
        amount,
        fee: fee_value,
        total_selected,
        change,
        selected_utxos: selected,
        outputs,
    }
}

} // verus!
