use debree::states::{try_translate, AppLoadingAssetsSubState, LoadingStep, PreGameTasks};

#[test]
fn tasks_are_a_set() {
    let mut t = PreGameTasks::default();
    assert!(t.is_empty());
    t.add("shaders".to_string());
    t.add("map".to_string());
    t.add("shaders".to_string());
    assert_eq!(t.task_list(), "shaders\nmap");
    t.done("shaders".to_string());
    assert_eq!(t.task_list(), "map");
    t.done("unknown".to_string());
    assert!(!t.is_empty());
    t.done("map".to_string());
    assert!(t.is_empty());
    assert_eq!(t.task_list(), "");
}

#[test]
fn add_then_done_leaves_others() {
    let mut t = PreGameTasks::new();
    t.add("a".to_string());
    t.add("b".to_string());
    t.done("b".to_string());
    assert_eq!(t.task_list(), "a");
}

#[test]
fn game_starts_when_ready() {
    let t = PreGameTasks::new();
    assert!(matches!(try_translate(AppLoadingAssetsSubState::Done, &t), LoadingStep::EnterGame));
}

#[test]
fn loading_screen_text() {
    let mut t = PreGameTasks::new();
    match try_translate(AppLoadingAssetsSubState::Loading, &t) {
        LoadingStep::Show(s) => assert_eq!(s, "Loading:\nAssets: Loading\nTasks:\n"),
        LoadingStep::EnterGame => panic!("assets are not loaded"),
    }
    t.add("lights".to_string());
    t.add("tiles".to_string());
    match try_translate(AppLoadingAssetsSubState::Done, &t) {
        LoadingStep::Show(s) => assert_eq!(s, "Loading:\nAssets: Done\nTasks:\nlights\ntiles"),
        LoadingStep::EnterGame => panic!("tasks are pending"),
    }
}
