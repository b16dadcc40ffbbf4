use pufferfish::{App, AppError, Callback, ParamDesc, TypeMap};

const COUNTER: u64 = 1;
const LOG: u64 = 2;
const X: u64 = 3;
const Y: u64 = 4;

#[derive(Debug, PartialEq, Clone)]
enum St {
    Counter(i64),
    Log(Vec<i64>),
    X(i64),
    Y(i64),
}

fn pd(token: u64, name: &str, exclusive: bool) -> ParamDesc {
    ParamDesc { token, name: name.to_string(), exclusive }
}

fn registered(r: Result<App<St>, (App<St>, AppError)>) -> App<St> {
    match r {
        Ok(app) => app,
        Err((_, e)) => panic!("registration failed: {:?}", e),
    }
}

fn mark(mut store: TypeMap<St>, id: u64) -> TypeMap<St> {
    let mut log = match store.get(LOG) {
        Some(St::Log(log)) => log.clone(),
        _ => panic!("log not seeded"),
    };
    log.push(id as i64);
    store.insert(LOG, St::Log(log));
    store
}

const INCR: u64 = 10;
const REPORT: u64 = 11;

fn frame_dispatch(mut store: TypeMap<St>, id: u64) -> TypeMap<St> {
    match id {
        INCR => {
            let n = match store.get(COUNTER) {
                Some(St::Counter(n)) => *n,
                _ => panic!("counter not seeded"),
            };
            store.insert(COUNTER, St::Counter(n + 1));
            store
        }
        REPORT => {
            let n = match store.get(COUNTER) {
                Some(St::Counter(n)) => *n,
                _ => panic!("counter not seeded"),
            };
            let mut log = match store.get(LOG) {
                Some(St::Log(log)) => log.clone(),
                _ => panic!("log not seeded"),
            };
            log.push(n);
            store.insert(LOG, St::Log(log));
            store
        }
        _ => panic!("unknown frame callback {}", id),
    }
}

fn log_of(app: &App<St>) -> Vec<i64> {
    match app.state().get(LOG) {
        Some(St::Log(log)) => log.clone(),
        _ => panic!("log not seeded"),
    }
}

#[test]
fn counter_scenario_logs_one_two_three() {
    let app = App::<St>::new()
        .add_state(COUNTER, St::Counter(0))
        .add_state(LOG, St::Log(vec![]));
    let app = registered(app.add_frame_callback(Callback {
        id: INCR,
        params: vec![pd(COUNTER, "Counter", true)],
    }));
    let mut app = registered(app.add_frame_callback(Callback {
        id: REPORT,
        params: vec![pd(COUNTER, "Counter", false), pd(LOG, "Log", true)],
    }));
    for _ in 0..3 {
        app = app.run_frame(frame_dispatch).unwrap();
    }
    assert_eq!(log_of(&app), vec![1, 2, 3]);
}

#[test]
fn frame_chain_runs_in_registration_order() {
    let mut app = App::<St>::new().add_state(LOG, St::Log(vec![]));
    for id in [21u64, 22, 23] {
        app = registered(app.add_frame_callback(Callback {
            id,
            params: vec![pd(LOG, "Log", true)],
        }));
    }
    app = app.run_frame(mark).unwrap();
    app = app.run_frame(mark).unwrap();
    assert_eq!(log_of(&app), vec![21, 22, 23, 21, 22, 23]);
}

#[test]
fn registration_rejects_two_exclusives() {
    let r = App::<St>::new().add_frame_callback(Callback {
        id: 1,
        params: vec![pd(COUNTER, "Counter", true), pd(COUNTER, "Counter", true)],
    });
    match r {
        Err((app, AppError::IllegalSignature { message, conflict, .. })) => {
            assert_eq!(
                message,
                "illegal callback signature (exclusive Counter, exclusive Counter): \
                 multiple exclusive references to Counter"
            );
            assert_eq!(conflict, "Counter");
            assert!(app.state().get(COUNTER).is_none());
        }
        _ => panic!("registration should have failed"),
    }
}

#[test]
fn registration_rejects_mixed_access() {
    let r = App::<St>::new().add_init_callback(Callback {
        id: 1,
        params: vec![pd(COUNTER, "Counter", false), pd(COUNTER, "Counter", true)],
    });
    match r {
        Err((_, AppError::IllegalSignature { message, .. })) => {
            assert_eq!(
                message,
                "illegal callback signature (shared Counter, exclusive Counter): \
                 both exclusive and shared references to Counter"
            );
        }
        _ => panic!("registration should have failed"),
    }
}

#[test]
fn failed_registration_hands_the_app_back_usable() {
    let app = App::<St>::new().add_state(LOG, St::Log(vec![]));
    let app = registered(app.add_frame_callback(Callback {
        id: 21,
        params: vec![pd(LOG, "Log", true)],
    }));
    let (app, err) = match app.add_frame_callback(Callback {
        id: 99,
        params: vec![pd(COUNTER, "Counter", true), pd(COUNTER, "Counter", true)],
    }) {
        Err(pair) => pair,
        Ok(_) => panic!("registration should have failed"),
    };
    assert!(matches!(err, AppError::IllegalSignature { .. }));
    let app = registered(app.add_frame_callback(Callback {
        id: 23,
        params: vec![pd(LOG, "Log", true)],
    }));
    let app = app.run_frame(mark).unwrap();
    assert_eq!(log_of(&app), vec![21, 23]);
}

#[test]
fn missing_state_stops_the_frame_run() {
    let app = registered(App::<St>::new().add_frame_callback(Callback {
        id: INCR,
        params: vec![pd(COUNTER, "Counter", true)],
    }));
    match app.run_frame(frame_dispatch) {
        Err(AppError::MissingType { name }) => assert_eq!(name, "Counter"),
        _ => panic!("the run should have failed on the unseeded counter"),
    }
}

fn setup_dispatch(mut store: TypeMap<St>, id: u64) -> TypeMap<St> {
    let mut log = match store.get(LOG) {
        Some(St::Log(log)) => log.clone(),
        _ => panic!("log not seeded"),
    };
    log.push(id as i64);
    store.insert(LOG, St::Log(log));
    store
}

fn derive_dispatch(mut store: TypeMap<St>, id: u64) -> (TypeMap<St>, St) {
    match id {
        40 => {
            let x = match store.get(X) {
                Some(St::X(x)) => *x,
                _ => panic!("x not seeded"),
            };
            if let Some(St::Log(log)) = store.get(LOG) {
                let mut log = log.clone();
                log.push(id as i64);
                store.insert(LOG, St::Log(log));
            }
            (store, St::Y(x + 100))
        }
        _ => panic!("unknown derivation {}", id),
    }
}

#[test]
fn derived_state_is_visible_from_the_first_tick() {
    fn check_y(store: TypeMap<St>, _id: u64) -> TypeMap<St> {
        match store.get(Y) {
            Some(St::Y(y)) => assert_eq!(*y, 105),
            _ => panic!("derived state missing on the first tick"),
        }
        store
    }
    let app = App::<St>::new().add_state(X, St::X(5));
    let app = registered(app.add_state_with(
        Callback { id: 40, params: vec![pd(X, "X", false)] },
        Y,
    ));
    let app = registered(app.add_frame_callback(Callback {
        id: 50,
        params: vec![pd(Y, "Y", false)],
    }));
    let app = app.init(vec![], setup_dispatch, derive_dispatch).unwrap();
    let app = app.run_frame(check_y).unwrap();
    match app.state().get(Y) {
        Some(St::Y(y)) => assert_eq!(*y, 105),
        _ => panic!("derived state missing after the tick"),
    }
}

#[test]
fn setup_chain_interleaves_in_registration_order() {
    let app = App::<St>::new().add_state(X, St::X(1)).add_state(LOG, St::Log(vec![]));
    let app = registered(app.add_init_callback(Callback {
        id: 30,
        params: vec![pd(LOG, "Log", true)],
    }));
    let app = registered(app.add_state_with(
        Callback { id: 40, params: vec![pd(X, "X", false)] },
        Y,
    ));
    let app = registered(app.add_init_callback(Callback {
        id: 31,
        params: vec![pd(LOG, "Log", true)],
    }));
    let app = app.init(vec![], setup_dispatch, derive_dispatch).unwrap();
    assert_eq!(log_of(&app), vec![30, 40, 31]);
}

#[test]
fn init_inserts_builtins_before_the_setup_chain() {
    fn expect_counter(store: TypeMap<St>, _id: u64) -> TypeMap<St> {
        match store.get(COUNTER) {
            Some(St::Counter(n)) => assert_eq!(*n, 9),
            _ => panic!("builtin missing during setup"),
        }
        store
    }
    let app = registered(App::<St>::new().add_init_callback(Callback {
        id: 60,
        params: vec![pd(COUNTER, "Counter", false)],
    }));
    let app = app
        .init(vec![(COUNTER, St::Counter(9))], expect_counter, derive_dispatch)
        .unwrap();
    match app.state().get(COUNTER) {
        Some(St::Counter(n)) => assert_eq!(*n, 9),
        _ => panic!("builtin missing after init"),
    }
}

#[test]
fn builder_configuration_is_kept() {
    let app = App::<St>::new()
        .with_title("Demo".to_string())
        .with_size(320, 200)
        .with_vsync(false)
        .with_resizable(false);
    assert_eq!(app.title(), "Demo");
    assert_eq!(app.size(), (320, 200));
    assert!(!app.vsync());
    assert!(!app.resizable());
}

#[test]
fn default_configuration() {
    let app = App::<St>::new();
    assert_eq!(app.title(), "Pufferfish");
    assert_eq!(app.size(), (800, 600));
    assert!(app.vsync());
    assert!(app.resizable());
}

#[test]
fn add_state_replaces_earlier_value() {
    let app = App::<St>::new()
        .add_state(COUNTER, St::Counter(1))
        .add_state(COUNTER, St::Counter(2));
    assert_eq!(app.state().get(COUNTER), Some(&St::Counter(2)));
}
