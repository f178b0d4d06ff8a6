use crux_core::codec::{decode_string, encode_string};
use crux_core::command::{Command, Decode, ResolveError};
use crux_core::executor::{Executor, Request};
use crux_core::testing::{App, AppContext, AppTester, Update};
use crux_core::time::{Response, Time};

#[derive(Debug, Clone, Copy, PartialEq, Eq)]
enum Effect {
    Time,
    Render,
}

#[derive(Debug, PartialEq, Eq)]
enum Event {
    RequestTime,
    RequestTwice,
    TimeReceived(Response),
}

type Cont = Decode<fn(Response) -> Event>;

fn time_received(r: Response) -> Event {
    Event::TimeReceived(r)
}

struct ClockApp;

impl App for ClockApp {
    type Event = Event;
    type Model = Option<String>;
    type ViewModel = String;
    type Effect = Effect;
    type Continuation = Cont;

    // This impl is not verified, so it claims no particular relation.
    fn updated(
        &self,
        _event: Event,
        _model_before: Option<String>,
        _context_before: AppContext<Effect, Event, Cont>,
        _model_after: Option<String>,
        _context_after: AppContext<Effect, Event, Cont>,
    ) -> bool {
        true
    }

    fn update(&self, event: Event, model: &mut Option<String>, context: &mut AppContext<Effect, Event, Cont>) {
        let time = Time::new(Effect::Time);
        match event {
            Event::RequestTime => context.send(time.get(time_received as fn(Response) -> Event)),
            Event::RequestTwice => {
                let first = time.get(time_received as fn(Response) -> Event);
                let second = Command::new(Effect::Render, time_received as fn(Response) -> Event);
                context.spawn(vec![first, second]);
            }
            Event::TimeReceived(Response(t)) => *model = Some(t),
        }
    }

    fn viewed(&self, _model: Option<String>, _view: String) -> bool {
        true
    }

    fn view(&self, model: &Option<String>) -> String {
        model.clone().unwrap_or_default()
    }
}

fn stamp() -> Response {
    Response("2024-01-01T00:00:00Z".to_string())
}

#[test]
fn clock_request_then_resolve() {
    let mut tester = AppTester::new(ClockApp);
    let mut model: Option<String> = None;
    let update = tester.update(Event::RequestTime, &mut model);
    assert_eq!(update.events.len(), 0);
    let request: Request<Effect, Event, Cont> = update.expect_one_effect();
    assert_eq!(request.command.effect, Effect::Time);
    assert_eq!(request.task, None);

    let update = tester.resolve(&request, &stamp()).unwrap();
    assert_eq!(update.effects.len(), 0);
    assert_eq!(update.events, vec![Event::TimeReceived(stamp())]);
}

#[test]
fn clock_resolve_to_event_then_update() {
    let mut tester = AppTester::new(ClockApp);
    let mut model: Option<String> = None;
    let request = tester.update(Event::RequestTime, &mut model).expect_one_effect();
    let update = tester.resolve_to_event_then_update(&request, &stamp(), &mut model);
    assert!(update.effects.is_empty() && update.events.is_empty());
    update.assert_empty();
    assert_eq!(model, Some("2024-01-01T00:00:00Z".to_string()));
    assert_eq!(tester.view(&model), "2024-01-01T00:00:00Z");
}

#[test]
fn streaming_request_resolves_repeatedly() {
    let mut tester = AppTester::new(ClockApp);
    let mut model: Option<String> = None;
    let request = tester.update(Event::RequestTime, &mut model).expect_one_effect();
    let first = tester.resolve(&request, &stamp()).unwrap().expect_one_event();
    let later = Response("2024-01-01T00:00:01Z".to_string());
    let second = tester.resolve(&request, &later).unwrap().expect_one_event();
    assert_eq!(first, Event::TimeReceived(stamp()));
    assert_eq!(second, Event::TimeReceived(later));
}

#[test]
fn expect_one_effect_returns_the_effect() {
    let update: Update<u8, u8> = Update { effects: vec![4], events: vec![] };
    assert_eq!(update.expect_one_effect(), 4);
}

#[test]
fn expect_one_event_and_assert_empty() {
    let update: Update<u8, u8> = Update { effects: vec![], events: vec![7] };
    assert_eq!(update.expect_one_event(), 7);
    let update: Update<u8, u8> = Update { effects: vec![], events: vec![] };
    update.assert_empty();
}

#[test]
fn protocol_issues_second_effect_after_first_resolves() {
    let mut tester = AppTester::new(ClockApp);
    let mut model: Option<String> = None;
    let update = tester.update(Event::RequestTwice, &mut model);
    let first = update.expect_one_effect();
    assert_eq!(first.command.effect, Effect::Time);
    assert_eq!(first.task, Some(0));

    let update = tester.resolve(&first, &stamp()).unwrap();
    assert_eq!(update.events.len(), 0);
    let second = update.expect_one_effect();
    assert_eq!(second.command.effect, Effect::Render);

    let update = tester.resolve(&second, &stamp()).unwrap();
    assert_eq!(update.effects.len(), 0);
    assert_eq!(update.events, vec![Event::TimeReceived(stamp())]);
}

#[test]
fn run_all_twice_issues_nothing_new() {
    let mut executor: Executor<u8, u8, Decode<fn(Response) -> u8>> = Executor::new();
    executor.spawn(vec![Command::new_without_callback(1), Command::new_without_callback(2)]);
    executor.spawn(vec![Command::new_without_callback(3)]);
    let mut out = Vec::new();
    executor.run_all(&mut out);
    let issued: Vec<(u8, Option<usize>)> = out.iter().map(|r| (r.command.effect, r.task)).collect();
    assert_eq!(issued, vec![(1, Some(0)), (3, Some(1))]);
    let mut again = Vec::new();
    executor.run_all(&mut again);
    assert!(again.is_empty());
    assert!(executor.tasks.iter().all(|t| t.waiting));
}

#[test]
fn resolve_encoded_response_applies_continuation() {
    let command: Command<Effect, usize, _> = Command::new(Effect::Time, |r: Response| r.0.len());
    assert_eq!(command.resolve_response(&Response("abc".to_string())), Ok(3));
    assert_eq!(command.resolve(&vec![3, b'a', b'b', b'c']), Ok(3));
}

#[test]
fn resolve_rejects_bad_payload() {
    let command: Command<Effect, usize, _> = Command::new(Effect::Time, |r: Response| r.0.len());
    assert_eq!(command.resolve(&vec![5, b'a']), Err(ResolveError::Decode));
    assert_eq!(command.resolve(&vec![1, b'a', b'b']), Err(ResolveError::Decode));
}

#[test]
fn command_without_callback_has_no_continuation() {
    let command: Command<Effect, Event, Cont> = Command::new_without_callback(Effect::Render);
    assert!(command.resolve.is_none());
    assert_eq!(command.effect, Effect::Render);
}

#[test]
fn lift_twice_composes_continuations() {
    let commands: Vec<Command<Effect, usize, _>> = vec![
        Command::new(Effect::Time, |r: Response| r.0.len()),
    ];
    let once = Command::lift(commands, |n: usize| n * 10);
    let twice = Command::lift(once, |n: usize| n + 1);
    assert_eq!(twice.len(), 1);
    assert_eq!(twice[0].effect, Effect::Time);
    assert_eq!(twice[0].resolve(&vec![2, b'h', b'i']), Ok(21));
}

#[test]
fn lift_keeps_order_and_missing_continuations() {
    let commands: Vec<Command<Effect, usize, Decode<fn(Response) -> usize>>> = vec![
        Command::new_without_callback(Effect::Render),
        Command::new(Effect::Time, (|r: Response| r.0.len()) as fn(Response) -> usize),
    ];
    let lifted = Command::lift(commands, |n: usize| Some(n));
    assert_eq!(lifted[0].effect, Effect::Render);
    assert!(lifted[0].resolve.is_none());
    assert_eq!(lifted[1].effect, Effect::Time);
    assert_eq!(lifted[1].resolve(&vec![0]), Ok(Some(0)));
}

#[test]
fn partitions_merge_back_to_original() {
    let original = vec![1u8, 2, 3, 4, 5, 6];
    let mut update: Update<u8, u8> = Update { effects: original.clone(), events: vec![9] };
    let even = update.take_effects(|e| e % 2 == 0);
    let odd = update.take_effects(|e| e % 2 != 0);
    assert_eq!(even, vec![2, 4, 6]);
    assert_eq!(odd, vec![1, 3, 5]);
    assert!(update.effects.is_empty());
    assert_eq!(update.events, vec![9]);
    let mut merged = Vec::new();
    let (mut i, mut j) = (0, 0);
    for e in &original {
        if e % 2 == 0 {
            merged.push(even[i]);
            i += 1;
        } else {
            merged.push(odd[j]);
            j += 1;
        }
    }
    assert_eq!(merged, original);
}

#[test]
fn partitioned_by_empties_update() {
    let mut update: Update<u8, u8> = Update { effects: vec![5, 1, 7, 2], events: vec![] };
    let (big, small) = update.take_effects_partitioned_by(|e| *e > 3);
    assert_eq!(big, vec![5, 7]);
    assert_eq!(small, vec![1, 2]);
    assert!(update.effects.is_empty());
    let mut empty: Update<u8, u8> = Update { effects: vec![], events: vec![] };
    assert_eq!(empty.take_effects(|_| true), Vec::<u8>::new());
}

#[test]
fn codec_round_trip() {
    let bytes = encode_string(&"hi".to_string()).unwrap();
    assert_eq!(bytes, vec![2, b'h', b'i']);
    assert_eq!(decode_string(&bytes), Some("hi".to_string()));
    assert_eq!(decode_string(&vec![2, b'h']), None);
    assert_eq!(encode_string(&String::new()), Some(vec![0]));
}

#[test]
fn update_accessors() {
    let update: Update<u8, u8> = Update { effects: vec![4, 5], events: vec![] };
    assert_eq!(update.effects(), &vec![4, 5]);
    assert_eq!(update.into_effects(), vec![4, 5]);
}

#[test]
fn decode_error_through_tester() {
    let mut context: AppContext<Effect, Event, Cont> = AppContext::new();
    let request = Request { command: Time::new(Effect::Time).get(time_received as fn(Response) -> Event), task: None };
    assert_eq!(context.resolve(&request, &vec![9]), Err(ResolveError::Decode));
    assert!(context.events.is_empty());
    let mut tester = AppTester::new(ClockApp);
    assert!(tester.resolve(&request, &stamp()).is_ok());
}

#[test]
fn effects_mut_edits_in_place() {
    let mut update: Update<u8, u8> = Update { effects: vec![1, 2], events: vec![] };
    for e in update.effects_mut().iter_mut() {
        *e *= 2;
    }
    update.effects_mut()[0] = 7;
    assert_eq!(update.effects, vec![7, 4]);
}

#[test]
fn updates_drain_in_order_and_empty_the_channels() {
    let mut context: AppContext<Effect, Event, Cont> = AppContext::new();
    context.dispatch(Event::RequestTime);
    context.send(Command::new_without_callback(Effect::Render));
    context.spawn(vec![Command::new_without_callback(Effect::Time)]);
    context.dispatch(Event::RequestTwice);
    let update = context.updates();
    let effects: Vec<(Effect, Option<usize>)> = update.effects.iter().map(|r| (r.command.effect, r.task)).collect();
    assert_eq!(effects, vec![(Effect::Render, None), (Effect::Time, Some(0))]);
    assert_eq!(update.events, vec![Event::RequestTime, Event::RequestTwice]);
    let again = context.updates();
    assert!(again.effects.is_empty() && again.events.is_empty());
}
