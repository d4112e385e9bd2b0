use bt_player::config::{api_token_value, env_bool_value, env_u16_value, DEFAULT_API_PORT, DEFAULT_CACHE_DIR, DEFAULT_STREAM_PORT};
use bt_player::db::{claim_target, worker_action, CloudExportTask, WorkerAction};

#[test]
fn ports() {
    assert_eq!(env_u16_value(None, DEFAULT_STREAM_PORT), 9527);
    assert_eq!(env_u16_value(Some("8080"), 1), 8080);
    assert_eq!(env_u16_value(Some("65535"), 1), 65535);
    assert_eq!(env_u16_value(Some("65536"), 1), 1);
    assert_eq!(env_u16_value(Some(" 80"), 1), 1);
    assert_eq!(env_u16_value(Some("+80"), 1), 80);
    assert_eq!(DEFAULT_API_PORT, 9528);
    assert_eq!(DEFAULT_CACHE_DIR, "/root/bt_cache");
}

#[test]
fn switches() {
    for on in ["1", "true", " TRUE ", "Yes", "on"] {
        assert!(env_bool_value(Some(on), false), "{}", on);
    }
    for off in ["0", "false", "no", "", "enabled"] {
        assert!(!env_bool_value(Some(off), true), "{}", off);
    }
    assert!(env_bool_value(None, true));
    assert!(!env_bool_value(None, false));
}

#[test]
fn api_tokens() {
    assert_eq!(api_token_value(Some("  tok ")), Some("tok".to_string()));
    assert_eq!(api_token_value(Some("   ")), None);
    assert_eq!(api_token_value(None), None);
}

fn task(id: i64) -> CloudExportTask {
    CloudExportTask {
        id,
        provider: "pikpak".into(),
        resource_id: "r".into(),
        source_type: "magnet".into(),
        source_locator: "m".into(),
        status: "queued".into(),
        error_message: None,
        created_at: "2024-01-01 00:00:00".into(),
        updated_at: "2024-01-01 00:00:00".into(),
    }
}

#[test]
fn worker_decisions() {
    assert_eq!(claim_target(&Some(task(4))), Some(4));
    assert_eq!(claim_target(&None), None);
    match worker_action(&Ok(Some(task(9)))) {
        WorkerAction::Finish { id, status, delay_secs } => assert_eq!((id, status.as_str(), delay_secs), (9, "done", 1)),
        _ => panic!("expected to finish the task"),
    }
    assert!(matches!(worker_action(&Ok(None)), WorkerAction::Wait { delay_secs: 5 }));
    assert!(matches!(worker_action(&Err("locked".into())), WorkerAction::Wait { delay_secs: 5 }));
}
