use open_fortress::states::AppState;

#[test]
fn screens_follow_in_order() {
    let mut s = AppState::default();
    assert_eq!(s, AppState::Splashscreen);
    let mut seen = vec![s];
    for _ in 0..4 {
        s = s.next();
        seen.push(s);
    }
    assert_eq!(
        seen,
        vec![
            AppState::Splashscreen,
            AppState::Loading,
            AppState::MainMenu,
            AppState::WorldGeneration,
            AppState::MainGame
        ]
    );
    assert_eq!(AppState::MainGame.next(), AppState::MainGame);
}
