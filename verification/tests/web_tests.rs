use zeta::app_state::UiCommand;
use zeta::web::{check_pay, check_send};

#[test]
fn blank_message_is_refused() {
    match check_send("  \t ".to_string()) {
        Err(e) => assert_eq!(e, "Message vide"),
        Ok(_) => panic!("blank text accepted"),
    }
    match check_send(" salut ".to_string()) {
        Ok(UiCommand::SendMessage(t)) => assert_eq!(t, " salut "),
        _ => panic!("text refused"),
    }
}

#[test]
fn zero_payment_is_refused() {
    match check_pay("bob".to_string(), 0) {
        Err(e) => assert_eq!(e, "Montant invalide"),
        Ok(_) => panic!("zero amount accepted"),
    }
    match check_pay("bob".to_string(), 12) {
        Ok(UiCommand::Pay { dst_id, amount }) => {
            assert_eq!(dst_id, "bob");
            assert_eq!(amount, 12);
        }
        _ => panic!("payment refused"),
    }
}
