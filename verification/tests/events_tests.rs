use herdr_floax::events::{batch_step, Event, Step};

#[test]
fn output_only_redraws() {
    assert_eq!(batch_step(&vec![Event::Output, Event::Output]), Step { quit: false, relayout: false });
}

#[test]
fn exit_anywhere_quits() {
    let s = batch_step(&vec![Event::Output, Event::Winch, Event::Exit, Event::Output]);
    assert!(s.quit);
    assert!(s.relayout);
}

#[test]
fn resize_relayouts() {
    assert_eq!(batch_step(&vec![Event::Winch]), Step { quit: false, relayout: true });
    assert_eq!(batch_step(&vec![]), Step { quit: false, relayout: false });
}
