use jo::app::App;
use jo::effect::{
    HighUsagePulseEffect, KillEffect, ModelineSlideInLeftEffect, ModelineSlideInRightEffect,
    TableSlideInEffect, TuiEffect, TuiEffects,
};
use jo::layout::Area;
use jo::state::State;
use jo::transition::Transition;
use ratatui::buffer::Buffer;
use ratatui::layout::Rect;

const AREA: Area = Area { x: 0, y: 0, width: 20, height: 4 };

fn screen() -> Buffer {
    let mut buf = Buffer::empty(Rect { x: 0, y: 0, width: 20, height: 4 });
    for y in 0..4 {
        buf.set_string(0, y, "abcdefghijklmnopqrst", ratatui::style::Style::new());
    }
    buf
}

fn recipe(effect: &TuiEffect) -> String {
    let text = match effect.effect.to_dsl() {
        Ok(expression) => expression.to_string(),
        Err(err) => panic!("{:?}", err),
    };
    text.split_whitespace().collect::<Vec<_>>().join(" ")
}

#[test]
fn the_recipes_of_the_slides() {
    assert_eq!(
        recipe(&TableSlideInEffect::default().0),
        "fx::slide_in( Motion::UpToDown, 12, 0, Color::Reset, EffectTimer::from_ms(500, Interpolation::CubicInOut) )"
    );
    assert_eq!(
        recipe(&ModelineSlideInLeftEffect::default().0),
        "fx::slide_in( Motion::RightToLeft, 12, 0, Color::White, EffectTimer::from_ms(600, Interpolation::CubicInOut) )"
    );
    assert_eq!(
        recipe(&ModelineSlideInRightEffect::default().0),
        "fx::slide_in( Motion::LeftToRight, 12, 0, Color::White, EffectTimer::from_ms(600, Interpolation::CubicInOut) )"
    );
    assert_eq!(
        recipe(&KillEffect::default().0),
        "fx::slide_in( Motion::LeftToRight, 12, 0, Color::White, EffectTimer::from_ms(600, Interpolation::CubicInOut) )"
    );
}

#[test]
fn the_recipe_of_the_pulse() {
    assert_eq!(
        recipe(&HighUsagePulseEffect::default().0),
        "fx::repeat( fx::sequence(&[ fx::fade_from_fg(Color::Indexed(3), EffectTimer::from_ms(5000, Interpolation::Linear)), fx::fade_to_fg(Color::Indexed(3), EffectTimer::from_ms(5000, Interpolation::Linear)) ]), RepeatMode::Forever )"
    );
}

#[test]
fn a_resting_animation_draws_nothing() {
    let mut effect = KillEffect::default().0;
    let mut buf = screen();
    effect.update(&mut buf, AREA, 100);
    assert_eq!(buf, screen());
    assert!(!effect.started() && !effect.finished() && !effect.running());
}

#[test]
fn a_slide_stays_in_its_area() {
    let mut effect = KillEffect::default().0;
    effect.start();
    let mut buf = screen();
    let part = Area { x: 2, y: 1, width: 15, height: 2 };
    effect.update(&mut buf, part, 300);
    let before = screen();
    let mut changed = 0;
    for y in 0..4u16 {
        for x in 0..20u16 {
            if buf[(x, y)] != before[(x, y)] {
                changed += 1;
                assert!((2..17).contains(&x) && (1..3).contains(&y));
            }
        }
    }
    assert!(changed > 0);
    assert_eq!(buf.area, before.area);
}

#[test]
fn a_slide_runs_its_time_and_ends() {
    let mut effect = KillEffect::default().0;
    effect.start();
    assert!(effect.running());
    let mut buf = screen();
    effect.update(&mut buf, AREA, 200);
    assert_ne!(buf, screen());
    assert!(effect.running());
    effect.update(&mut buf, AREA, 399);
    assert!(effect.running());
    effect.update(&mut buf, AREA, 1);
    assert!(effect.started() && effect.finished() && !effect.running());
    let mut after = screen();
    effect.update(&mut after, AREA, 100);
    assert_eq!(after, screen());
    assert!(!effect.started());
    effect.update(&mut after, AREA, 100);
    assert!(!effect.started() && effect.finished());
}

#[test]
fn an_ended_animation_does_not_run_again() {
    let mut effect = KillEffect::default().0;
    effect.start();
    let mut buf = screen();
    effect.update(&mut buf, AREA, 600);
    assert!(effect.finished());
    effect.start();
    assert!(effect.started() && effect.finished() && !effect.running());
    effect.set_running(false);
    assert!(effect.started());
    effect.set_running(true);
    assert!(!effect.running());
}

#[test]
fn starting_rewinds() {
    let mut effect = KillEffect::default().0;
    effect.start();
    let mut buf = screen();
    effect.update(&mut buf, AREA, 500);
    effect.start();
    effect.update(&mut buf, AREA, 599);
    assert!(effect.running());
    effect.update(&mut buf, AREA, 1);
    assert!(effect.finished());
}

#[test]
fn stopping_and_going_on() {
    let mut effect = TuiEffect::from(KillEffect::default().0.effect);
    effect.set_running(true);
    assert!(effect.running());
    let mut buf = screen();
    effect.update(&mut buf, AREA, 400);
    effect.stop();
    assert!(!effect.running() && !effect.finished());
    effect.set_running(true);
    effect.update(&mut buf, AREA, 200);
    assert!(effect.finished());
    let mut other = KillEffect::default().0;
    other.start();
    other.set_running(false);
    assert!(!other.started());
}

#[test]
fn the_pulse_never_ends() {
    let mut effect = HighUsagePulseEffect::default().0;
    effect.start();
    let mut buf = screen();
    for _ in 0..10 {
        effect.update(&mut buf, AREA, 4000);
        assert!(effect.running());
    }
}

#[test]
fn a_sequence_hands_time_on() {
    let slide = || KillEffect::default().0.effect;
    let mut effect = TuiEffect::from(tachyonfx::fx::sequence(&[slide(), slide()]));
    effect.start();
    let mut buf = screen();
    effect.update(&mut buf, AREA, 900);
    assert!(effect.running());
    let mut half = KillEffect::default().0;
    half.start();
    half.update(&mut screen(), AREA, 300);
    let (mut one, mut other) = (screen(), screen());
    effect.update(&mut one, AREA, 100);
    half.update(&mut other, AREA, 100);
    assert_eq!(one, other);
    assert_ne!(one, screen());
    effect.update(&mut buf, AREA, 199);
    assert!(effect.running());
    effect.update(&mut buf, AREA, 1);
    assert!(effect.finished());
}

#[test]
fn a_pulse_begins_anew_when_time_is_over() {
    let step = |first: u32| {
        let mut effect = HighUsagePulseEffect::default().0;
        effect.start();
        effect.update(&mut screen(), AREA, first);
        let mut buf = screen();
        effect.update(&mut buf, AREA, 2000);
        buf
    };
    assert_eq!(step(10001), step(0));
    assert_eq!(step(15000), step(0));
    assert_ne!(step(5000), step(0));
    assert_ne!(step(0), screen());
    assert_eq!(step(10000), screen());
}

#[test]
fn starting_a_pulse_begins_it_anew() {
    let mut worn = HighUsagePulseEffect::default().0;
    worn.start();
    let mut buf = screen();
    worn.update(&mut buf, AREA, 7000);
    worn.start();
    let mut fresh = HighUsagePulseEffect::default().0;
    fresh.start();
    let (mut one, mut other) = (screen(), screen());
    worn.update(&mut one, AREA, 1000);
    fresh.update(&mut other, AREA, 1000);
    assert_eq!(one, other);
    assert_ne!(one, screen());
}

#[test]
fn a_clone_goes_its_own_way() {
    let mut effect = KillEffect::default();
    effect.0.start();
    let mut buf = screen();
    effect.0.update(&mut buf, AREA, 500);
    let mut copy = effect.clone();
    copy.0.update(&mut buf, AREA, 100);
    assert!(copy.0.finished());
    assert!(effect.0.running());
}

#[test]
fn any_animation_keeps_the_screen_moving() {
    let mut effects = TuiEffects::default();
    assert!(!effects.running());
    effects.open();
    assert!(effects.running());
    assert!(effects.table_slide_in.0.running());
    assert!(effects.modeline_slide_in_left.0.running());
    assert!(effects.modeline_slide_in_right.0.running());
    assert!(!effects.kill_effect.0.running());
    let copy = effects.clone();
    assert!(copy.running());
}

#[test]
fn killing_starts_the_wipe() {
    let mut st = State::default();
    st.old_search_state = Some(jo::search::SearchState {
        term: "a".to_string(),
        idx: 0,
        hooked: true,
    });
    let st = Transition::KillProcess(7).transition(st);
    assert!(st.effects.kill_effect.0.running());
    assert_eq!(st.last_killed_pid, Some(7));
    assert!(!st.old_search_state.expect("search").hooked);
}

#[test]
fn frames_are_wanted_while_something_moves() {
    let mut app = App::default();
    let mut st = State::default();
    st.open();
    assert_eq!(st.process_table_state.selected(), Some(0));
    assert!(!app.wants_frame(&st));
    app.config.animations = true;
    assert!(app.wants_frame(&st));
    assert!(!app.wants_frame(&State::default()));
}
