use artist_tools::pool::SharedResources;
use artist_tools::registry::{
    artis_task, grant, ArtistToolPreferences, ArtistToolRegistry, SharedRegistry, State, Timestamp,
};
use artist_tools::selection::{tools_usage, MAX_ALLOWED_TOOLS, MIN_REQUIRED_TOOLS};
use artist_tools::shared::SharedPool;
use artist_tools::pool::TOTAL_ITEMS;

#[test]
fn test_tool_registry() {
    let resources = SharedPool::new(SharedResources::default());
    let mut registry = ArtistToolRegistry::new(&resources);
    let tools = vec!["brush".to_string(), "palette".to_string()];
    registry.tool_registry(1, tools);
    assert_eq!(registry.artist_tool_preferences.len(), 1);
}

#[test]
fn test_tools_usage() {
    let tools = vec![
        ("brush".to_string(), TOTAL_ITEMS),
        ("palette".to_string(), TOTAL_ITEMS),
    ];
    let (_id, selected_tools) = tools_usage(1, &tools);
    assert!(
        selected_tools.len() >= MIN_REQUIRED_TOOLS && selected_tools.len() <= MAX_ALLOWED_TOOLS
    );
}

#[test]
fn registration_record_carries_id_tools_time_and_state() {
    let resources = SharedPool::new(SharedResources::default());
    let mut registry = ArtistToolRegistry::new(&resources);
    let missing = registry.tool_registry(7, vec!["brush".to_string(), "rags".to_string()]);
    assert!(missing.is_empty());
    let record = &registry.artist_tool_preferences[0];
    assert_eq!(record.artist_id, 7);
    assert_eq!(record.preferred_tools, vec!["brush".to_string(), "rags".to_string()]);
    assert_eq!(record.state, Some(State::TakeOut));
    let stamp = record.datetime.unwrap();
    assert!(stamp.secs > 1_600_000_000);
    assert!(stamp.nanos < 1_000_000_000);
    assert_eq!(resources.stock(&"brush".to_string()), 9);
    assert_eq!(resources.stock(&"rags".to_string()), 9);
}

#[test]
fn registration_logs_even_when_nothing_is_left() {
    let resources = SharedPool::new(SharedResources { tools: vec![], paints: vec![] });
    let mut registry = ArtistToolRegistry::new(&resources);
    let missing = registry.tool_registry(3, vec!["brush".to_string()]);
    assert_eq!(missing, vec!["brush".to_string()]);
    assert_eq!(registry.artist_tool_preferences.len(), 1);
    assert_eq!(registry.artist_tool_preferences[0].artist_id, 3);
}

#[test]
fn default_record_is_empty() {
    let record = ArtistToolPreferences::default();
    assert_eq!(record.artist_id, 0);
    assert!(record.preferred_tools.is_empty());
    assert!(record.datetime.is_none());
    assert!(record.state.is_none());
}

#[test]
fn selection_from_full_pool_is_bounded_distinct_and_present() {
    let snapshot = SharedResources::default().tools;
    for _ in 0..50 {
        let (id, chosen) = tools_usage(4, &snapshot);
        assert_eq!(id, 4);
        assert!(chosen.len() >= MIN_REQUIRED_TOOLS && chosen.len() <= MAX_ALLOWED_TOOLS);
        for (i, a) in chosen.iter().enumerate() {
            assert!(snapshot.iter().any(|t| &t.0 == a));
            assert!(chosen[i + 1..].iter().all(|b| b != a));
        }
    }
}

#[test]
fn selection_from_small_pool_takes_all_of_it() {
    let snapshot = vec![("tape".to_string(), 1)];
    let (_, chosen) = tools_usage(0, &snapshot);
    assert_eq!(chosen, vec!["tape".to_string()]);
}

#[test]
fn five_artists_each_taking_a_brush() {
    let pool = SharedPool::new(SharedResources {
        tools: vec![("brush".to_string(), 10)],
        paints: vec![],
    });
    let registry = SharedRegistry::new(ArtistToolRegistry::new(&pool));
    for id in 0..5 {
        let handle = registry.share();
        let missing = handle.register(id, vec!["brush".to_string()]);
        assert!(missing.is_empty());
    }
    assert_eq!(pool.stock(&"brush".to_string()), 5);
    let states = registry.states();
    assert_eq!(states.len(), 5);
    assert!(states.iter().all(|s| *s == State::TakeOut));
}

#[test]
fn many_withdrawals_of_one_resource_end_at_zero() {
    let pool = SharedPool::new(SharedResources {
        tools: vec![("brush".to_string(), 4)],
        paints: vec![],
    });
    let mut missing_total: usize = 0;
    for _ in 0..7 {
        missing_total += pool.share().withdraw(vec!["brush".to_string()]).len();
    }
    assert_eq!(pool.stock(&"brush".to_string()), 0);
    assert_eq!(missing_total, 3);
    assert!(pool.snapshot().is_empty());
}

#[test]
fn artist_task_registers_its_selection() {
    let pool = SharedPool::new(SharedResources::default());
    let registry = SharedRegistry::new(ArtistToolRegistry::new(&pool));
    let (id, chosen, missing) = artis_task(registry.share(), 2, pool.share());
    assert_eq!(id, 2);
    assert!(chosen.len() >= MIN_REQUIRED_TOOLS && chosen.len() <= MAX_ALLOWED_TOOLS);
    assert!(missing.is_empty());
    assert_eq!(registry.states(), vec![State::TakeOut]);
    let snapshot = pool.snapshot();
    let left: usize = snapshot.iter().map(|t| t.1).sum();
    assert_eq!(left, 100 - chosen.len());
}

#[test]
fn grant_logs_then_withdraws_exactly_the_request() {
    let mut log: Vec<ArtistToolPreferences> = Vec::new();
    let mut pool = SharedResources::default();
    let stamp = Timestamp { secs: 1_700_000_000, nanos: 5 };
    let missing = grant(
        &mut log,
        &mut pool,
        9,
        vec!["brush".to_string(), "chisel".to_string(), "brush".to_string()],
        stamp,
    );
    assert_eq!(missing, vec!["chisel".to_string()]);
    assert_eq!(log.len(), 1);
    assert_eq!(log[0].artist_id, 9);
    assert_eq!(log[0].datetime, Some(stamp));
    assert_eq!(log[0].state, Some(State::TakeOut));
    assert_eq!(log[0].preferred_tools.len(), 3);
    assert_eq!(pool.tools[0], ("brush".to_string(), 8));
}

#[test]
fn five_grants_of_a_brush_leave_five() {
    let mut log: Vec<ArtistToolPreferences> = Vec::new();
    let mut pool = SharedResources { tools: vec![("brush".to_string(), 10)], paints: vec![] };
    for id in 0..5 {
        let stamp = Timestamp { secs: 1, nanos: 0 };
        assert!(grant(&mut log, &mut pool, id, vec!["brush".to_string()], stamp).is_empty());
    }
    assert_eq!(pool.tools, vec![("brush".to_string(), 5)]);
    assert_eq!(log.len(), 5);
    assert!(log.iter().all(|r| r.state == Some(State::TakeOut)));
}
