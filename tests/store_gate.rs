use service_bot::decimal::{parse_decimal, to_decimal};
use service_bot::gate::{
    add_service, authorize_add, authorize_service, parse_action, service_actions, Action,
    AddError, Rejection,
};
use service_bot::persist::{
    decode, load_from, server_cfg_location, temp_location, SaveError,
};
use service_bot::report::{added_message, ran_message, status_report};
use service_bot::store::{allowed_service, ServersCfg};

fn store_with(entries: &[(u64, &[&str])]) -> ServersCfg {
    let mut cfg = ServersCfg::new();
    for (tenant, services) in entries {
        for s in services.iter() {
            cfg.add(*tenant, s.to_string());
        }
    }
    cfg
}

fn list_of(cfg: &ServersCfg, tenant: u64) -> Option<Vec<String>> {
    cfg.services_of(tenant).cloned()
}

#[test]
fn never_added_service_is_refused() {
    let cfg = store_with(&[(42, &["nginx", "redis"])]);
    assert!(!allowed_service(&cfg, 42, "postgres"));
    assert!(!allowed_service(&cfg, 42, "NGINX"));
    assert!(!allowed_service(&cfg, 7, "nginx"));
    assert!(!allowed_service(&ServersCfg::new(), 42, "nginx"));
}

#[test]
fn added_service_is_allowed() {
    let mut cfg = ServersCfg::new();
    assert!(cfg.add(5, "caddy".to_string()));
    assert!(allowed_service(&cfg, 5, "caddy"));
    assert!(!cfg.add(5, "redis".to_string()));
    assert!(allowed_service(&cfg, 5, "caddy"));
    assert!(allowed_service(&cfg, 5, "redis"));
    assert_eq!(cfg.tenant_ids(), &vec![5u64]);
}

#[test]
fn duplicates_are_kept_in_order() {
    let cfg = store_with(&[(1, &["a", "b", "a"])]);
    assert_eq!(list_of(&cfg, 1), Some(vec!["a".to_string(), "b".to_string(), "a".to_string()]));
}

#[test]
fn retract_takes_back_the_last_add() {
    let mut cfg = store_with(&[(1, &["a"])]);
    let created = cfg.add(1, "b".to_string());
    cfg.retract(1, created);
    assert_eq!(list_of(&cfg, 1), Some(vec!["a".to_string()]));
    let created = cfg.add(2, "c".to_string());
    assert!(created);
    cfg.retract(2, created);
    assert_eq!(list_of(&cfg, 2), None);
    assert_eq!(cfg.tenant_ids(), &vec![1u64]);
}

#[test]
fn save_then_load_keeps_every_list() {
    let cfg = store_with(&[(42, &["nginx", "redis"]), (7, &["sshd"]), (u64::MAX, &["x y", "\"quoted\""])]);
    let text = cfg.encode().unwrap();
    assert!(text.contains("servers_services"));
    assert!(text.contains("nginx"));
    let back = decode(&text).unwrap();
    for t in [42u64, 7, u64::MAX] {
        assert_eq!(list_of(&back, t), list_of(&cfg, t));
    }
    assert_eq!(back.tenant_ids().len(), 3);
}

#[test]
fn save_then_load_of_empty_store() {
    let text = ServersCfg::new().encode().unwrap();
    let back = decode(&text).unwrap();
    assert!(back.tenant_ids().is_empty());
}

#[test]
fn load_of_missing_file_is_empty() {
    let cfg = load_from(None);
    assert!(cfg.tenant_ids().is_empty());
    assert!(!allowed_service(&cfg, 42, "nginx"));
}

#[test]
fn load_of_corrupt_file_is_empty() {
    let cfg = load_from(Some("this is [ not toml".to_string()));
    assert!(cfg.tenant_ids().is_empty());
    let cfg = load_from(Some("[servers_services]\nabc = [\"nginx\"]\n".to_string()));
    assert!(cfg.tenant_ids().is_empty());
    let cfg = load_from(Some("[servers_services]\n42 = [\"a\"]\n042 = [\"b\"]\n".to_string()));
    assert!(cfg.tenant_ids().is_empty());
    let cfg = load_from(Some("[other]\n42 = [\"a\"]\n".to_string()));
    assert!(cfg.tenant_ids().is_empty());
}

#[test]
fn load_of_written_file() {
    let cfg = load_from(Some("[servers_services]\n42 = [\"nginx\", \"redis\"]\n".to_string()));
    assert!(allowed_service(&cfg, 42, "redis"));
    assert_eq!(list_of(&cfg, 42), Some(vec!["nginx".to_string(), "redis".to_string()]));
}

#[test]
fn many_adds_to_one_guild_all_survive_a_save() {
    let shared = std::sync::RwLock::new(ServersCfg::new());
    let n: usize = 25;
    let mut last_text = String::new();
    for i in 0..n {
        let mut guard = shared.write().unwrap();
        let pending = add_service(&mut guard, 1, Some(1), 9, Some(format!("svc{i}"))).unwrap();
        last_text = pending.text;
    }
    let back = load_from(Some(last_text));
    for i in 0..n {
        assert!(allowed_service(&back, 9, &format!("svc{i}")));
    }
    assert_eq!(list_of(&back, 9).unwrap().len(), n);
}

#[test]
fn unlisted_service_is_rejected_like_a_bad_action() {
    let cfg = store_with(&[(42, &["nginx", "redis"])]);
    let unlisted = authorize_service(&cfg, 42, Some(("start", "postgres")));
    let bad_action = authorize_service(&cfg, 42, Some(("frobnicate", "redis")));
    assert_eq!(unlisted, Err(Rejection::InvalidServiceOrAction));
    assert_eq!(bad_action, Err(Rejection::InvalidServiceOrAction));
    assert_eq!(
        unlisted.unwrap_err().message(),
        bad_action.unwrap_err().message()
    );
    assert_eq!(Rejection::InvalidServiceOrAction.message(), "Invalid service or action");
}

#[test]
fn missing_options_are_invalid_args() {
    let cfg = store_with(&[(42, &["nginx"])]);
    assert_eq!(authorize_service(&cfg, 42, None), Err(Rejection::InvalidArgs));
    assert_eq!(Rejection::InvalidArgs.message(), "Invalid args");
}

#[test]
fn scenario_guild_42() {
    let cfg = store_with(&[(42, &["nginx", "redis"])]);
    let approved = authorize_service(&cfg, 42, Some(("stop", "redis")));
    assert_eq!(approved, Ok((Action::Stop, "redis".to_string())));
    let (action, service) = approved.unwrap();
    assert_eq!(action.name(), "stop");
    assert_eq!(service, "redis");
    assert!(authorize_service(&cfg, 42, Some(("stop", "postgres"))).is_err());
    assert!(authorize_service(&cfg, 42, Some(("frobnicate", "redis"))).is_err());

    let mut cfg = cfg;
    let r = add_service(&mut cfg, 1000, Some(2000), 42, Some("postgres".to_string()));
    assert!(matches!(r, Err(AddError::NotOwner)));
    assert!(!allowed_service(&cfg, 42, "postgres"));
    assert_eq!(list_of(&cfg, 42), Some(vec!["nginx".to_string(), "redis".to_string()]));
}

#[test]
fn owner_add_is_saved() {
    let mut cfg = store_with(&[(42, &["nginx"])]);
    let p = add_service(&mut cfg, 2000, Some(2000), 42, Some("postgres".to_string())).unwrap();
    assert!(!p.created);
    assert!(allowed_service(&cfg, 42, "postgres"));
    let back = decode(&p.text).unwrap();
    assert_eq!(list_of(&back, 42), Some(vec!["nginx".to_string(), "postgres".to_string()]));
    let p = add_service(&mut cfg, 2000, Some(2000), 43, Some("x".to_string())).unwrap();
    assert!(p.created);
}

#[test]
fn add_without_owner_or_service_is_refused() {
    let mut cfg = ServersCfg::new();
    assert!(matches!(add_service(&mut cfg, 1, None, 42, Some("a".to_string())), Err(AddError::NotOwner)));
    assert!(matches!(add_service(&mut cfg, 1, Some(1), 42, None), Err(AddError::MissingService)));
    assert!(cfg.tenant_ids().is_empty());
    assert!(authorize_add(3, Some(3)));
    assert!(!authorize_add(3, Some(4)));
    assert!(!authorize_add(3, None));
    assert_ne!(AddError::Save(SaveError::Encode), AddError::Save(SaveError::Write));
}

#[test]
fn actions_are_exact_words() {
    assert_eq!(parse_action("start"), Some(Action::Start));
    assert_eq!(parse_action("stop"), Some(Action::Stop));
    assert_eq!(parse_action("restart"), Some(Action::Restart));
    assert_eq!(parse_action("Start"), None);
    assert_eq!(parse_action(""), None);
    assert_eq!(service_actions(), vec![Action::Start, Action::Stop, Action::Restart]);
    assert_eq!(Action::Restart.name(), "restart");
}

#[test]
fn decimal_keys() {
    assert_eq!(to_decimal(0), "0");
    assert_eq!(to_decimal(42), "42");
    assert_eq!(to_decimal(u64::MAX), "18446744073709551615");
    assert_eq!(parse_decimal("18446744073709551615"), Some(u64::MAX));
    assert_eq!(parse_decimal("18446744073709551616"), None);
    assert_eq!(parse_decimal("042"), Some(42));
    assert_eq!(parse_decimal(""), None);
    assert_eq!(parse_decimal("4a"), None);
    assert_eq!(parse_decimal("-1"), None);
}

#[test]
fn replies() {
    let services = vec!["nginx".to_string(), "redis".to_string()];
    assert_eq!(status_report(&services, &vec![true, false]), "nginx: up\nredis: down\n");
    assert_eq!(status_report(&vec![], &vec![]), "");
    assert_eq!(ran_message(Action::Stop, "redis"), "Successfully ran `/service stop redis`");
    assert_eq!(added_message("redis"), "added redis to allowed services for this server");
}

#[test]
fn file_locations() {
    assert_eq!(server_cfg_location(true), "dev.servers.toml");
    assert_eq!(server_cfg_location(false), "servers.toml");
    assert_eq!(temp_location(true), "dev.servers.toml.tmp");
    assert_eq!(temp_location(false), "servers.toml.tmp");
}
