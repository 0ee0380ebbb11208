//! The checks the web interface makes on the requests it receives before
//! handing them to the node's network loop.

use vstd::prelude::*;
use crate::app_state::UiCommand;
use crate::text::{is_blank, trim};

verus! {

broadcast use vstd::string::group_string_axioms;

/// A request to broadcast `text`: refused with "Message vide" when the text
/// is blank once trimmed, else the command to send it as it was typed.
pub fn check_send(text: String) -> (r: Result<UiCommand, String>)
    ensures
        trim(text@).len() == 0 ==> (r matches Err(e) && e@ == "Message vide"@),
        trim(text@).len() != 0 ==> (r matches Ok(UiCommand::SendMessage(t)) && t == text),
{
    if is_blank(text.as_str()) {
        return Err("Message vide".to_string());
    }
    Ok(UiCommand::SendMessage(text))
}

/// A request to pay `amount` satoshis to `dst_id`: refused with "Montant
/// invalide" when the amount is zero, else the command to pay.
pub fn check_pay(dst_id: String, amount: u64) -> (r: Result<UiCommand, String>)
    ensures
        amount == 0 ==> (r matches Err(e) && e@ == "Montant invalide"@),
        amount != 0 ==> (r matches Ok(UiCommand::Pay { dst_id: d, amount: a }) && d == dst_id && a == amount),
{
    if amount == 0 {
        return Err("Montant invalide".to_string());
    }
    Ok(UiCommand::Pay { dst_id, amount })
}

} // verus!
