use w4on2_shared::bounce::{BouncePhase, PADDING_TICKS, SAMPLES_PER_TICK, WASM4_SAMPLE_RATE};

fn rendered_ticks(playing: usize) -> (usize, usize) {
    let mut phase = BouncePhase::start();
    let mut rendered = 0;
    let mut asked = 0;
    while phase.renders() {
        rendered += 1;
        let mut ended = false;
        if phase.plays() {
            asked += 1;
            ended = asked == playing;
        }
        phase = phase.next(ended);
    }
    (rendered, asked)
}

#[test]
fn a_rendering_is_silence_the_song_and_silence() {
    assert_eq!(PADDING_TICKS, 5);
    assert_eq!(rendered_ticks(1), (11, 1));
    assert_eq!(rendered_ticks(3), (13, 3));
    assert_eq!(rendered_ticks(100), (110, 100));
}

#[test]
fn the_phases_follow_one_another() {
    assert_eq!(BouncePhase::start(), BouncePhase::LeadIn(5));
    assert_eq!(BouncePhase::LeadIn(5).next(false), BouncePhase::LeadIn(4));
    assert_eq!(BouncePhase::LeadIn(1).next(false), BouncePhase::Playing);
    assert_eq!(BouncePhase::LeadIn(0).next(true), BouncePhase::Playing);
    assert_eq!(BouncePhase::Playing.next(false), BouncePhase::Playing);
    assert_eq!(BouncePhase::Playing.next(true), BouncePhase::LeadOut(5));
    assert_eq!(BouncePhase::LeadOut(2).next(false), BouncePhase::LeadOut(1));
    assert_eq!(BouncePhase::LeadOut(1).next(false), BouncePhase::Done);
    assert_eq!(BouncePhase::Done.next(false), BouncePhase::Done);
    assert!(!BouncePhase::Done.renders());
    assert!(!BouncePhase::LeadIn(3).plays());
    assert!(!BouncePhase::LeadOut(3).plays());
}

#[test]
fn a_tick_of_the_chip_is_735_samples() {
    assert_eq!(WASM4_SAMPLE_RATE, 44100);
    assert_eq!(SAMPLES_PER_TICK, WASM4_SAMPLE_RATE / 60);
}
