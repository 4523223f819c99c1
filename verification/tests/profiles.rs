use proxy_manager::profile_manager::{
    add_custom_software, add_profile, delete_custom_software, delete_profile, update_profile,
    update_software_mapping, ClosePreference, CustomSoftware, ProxyProfile,
    SoftwareProxyMapping, UserConfig,
};

fn profile(name: &str, host: &str, port: u16) -> ProxyProfile {
    ProxyProfile { name: name.to_string(), host: host.to_string(), port }
}

fn mapping(software: &str, profile: &str) -> SoftwareProxyMapping {
    SoftwareProxyMapping { software_name: software.to_string(), profile_name: profile.to_string() }
}

fn custom(name: &str) -> CustomSoftware {
    CustomSoftware {
        name: name.to_string(),
        config_type: "json".to_string(),
        config_path: format!("/{}.json", name),
    }
}

#[test]
fn default_configuration() {
    let config = UserConfig::default();
    assert_eq!(
        config.profiles,
        vec![
            profile("Clash", "127.0.0.1", 7890),
            profile("V2Ray", "127.0.0.1", 10808),
            profile("Veee", "127.0.0.1", 15236),
        ]
    );
    assert!(config.mappings.is_empty());
    assert!(config.custom_software.is_empty());
    assert_eq!(config.close_preference, ClosePreference { remember: false, action: "minimize".to_string() });
    assert_eq!(ClosePreference::default(), config.close_preference);
}

#[test]
fn adding_a_profile() {
    let config = add_profile(UserConfig::default(), profile("Mine", "10.0.0.1", 8080)).unwrap();
    assert_eq!(config.profiles.len(), 4);
    assert_eq!(config.profiles[3], profile("Mine", "10.0.0.1", 8080));
    assert_eq!(config.profiles[0], profile("Clash", "127.0.0.1", 7890));
    assert_eq!(
        add_profile(config.clone(), profile("Mine", "x", 1)),
        Err("配置组 'Mine' 已存在".to_string())
    );
    assert_eq!(
        add_profile(config, profile("Clash", "x", 1)),
        Err("配置组 'Clash' 已存在".to_string())
    );
    assert!(add_profile(UserConfig::default(), profile("clash", "x", 1)).is_ok());
}

#[test]
fn deleting_a_profile() {
    assert_eq!(
        delete_profile(UserConfig::default(), "Nope"),
        Err("配置组 'Nope' 不存在".to_string())
    );
    let mut config = UserConfig::default();
    config.profiles.push(profile("Clash", "again", 1));
    config.mappings = vec![mapping("Git", "Clash"), mapping("npm", "Veee"), mapping("IDEA", "Clash")];
    config.custom_software = vec![custom("Mine")];
    let after = delete_profile(config, "Clash").unwrap();
    assert_eq!(after.profiles, vec![profile("V2Ray", "127.0.0.1", 10808), profile("Veee", "127.0.0.1", 15236)]);
    assert_eq!(after.mappings, vec![mapping("npm", "Veee")]);
    assert_eq!(after.custom_software, vec![custom("Mine")]);
}

#[test]
fn mapping_a_target_to_a_profile() {
    assert_eq!(
        update_software_mapping(UserConfig::default(), "Git", "Nope"),
        Err("配置组 'Nope' 不存在".to_string())
    );
    let config = update_software_mapping(UserConfig::default(), "Git", "Clash").unwrap();
    assert_eq!(config.mappings, vec![mapping("Git", "Clash")]);
    let config = update_software_mapping(config, "npm", "Veee").unwrap();
    let config = update_software_mapping(config, "Git", "V2Ray").unwrap();
    assert_eq!(config.mappings, vec![mapping("Git", "V2Ray"), mapping("npm", "Veee")]);
    let mut twice = config.clone();
    twice.mappings.push(mapping("Git", "Veee"));
    let twice = update_software_mapping(twice, "Git", "Clash").unwrap();
    assert_eq!(
        twice.mappings,
        vec![mapping("Git", "Clash"), mapping("npm", "Veee"), mapping("Git", "Veee")]
    );
}

#[test]
fn updating_a_profile_takes_its_mappings_along() {
    assert_eq!(
        update_profile(UserConfig::default(), "Nope", profile("x", "y", 1)),
        Err("配置组 'Nope' 不存在".to_string())
    );
    let mut config = UserConfig::default();
    config.mappings = vec![mapping("Git", "V2Ray"), mapping("npm", "Clash"), mapping("IDEA", "V2Ray")];
    let after = update_profile(config.clone(), "V2Ray", profile("Ray", "10.1.1.1", 1080)).unwrap();
    assert_eq!(
        after.profiles,
        vec![
            profile("Clash", "127.0.0.1", 7890),
            profile("Ray", "10.1.1.1", 1080),
            profile("Veee", "127.0.0.1", 15236),
        ]
    );
    assert_eq!(after.mappings, vec![mapping("Git", "Ray"), mapping("npm", "Clash"), mapping("IDEA", "Ray")]);
    let same_name = update_profile(config.clone(), "V2Ray", profile("V2Ray", "h", 2)).unwrap();
    assert_eq!(same_name.mappings, config.mappings);
    assert_eq!(same_name.profiles[1], profile("V2Ray", "h", 2));
}

#[test]
fn declaring_and_taking_back_a_target() {
    let config = add_custom_software(UserConfig::default(), custom("Mine")).unwrap();
    assert_eq!(config.custom_software, vec![custom("Mine")]);
    assert_eq!(
        add_custom_software(config.clone(), custom("Mine")),
        Err("软件 'Mine' 已存在".to_string())
    );
    let config = add_custom_software(config, custom("Other")).unwrap();
    let config = update_software_mapping(config, "Mine", "Clash").unwrap();
    let config = update_software_mapping(config, "Git", "Clash").unwrap();
    assert_eq!(
        delete_custom_software(config.clone(), "Git"),
        Err("软件 'Git' 不存在".to_string())
    );
    let after = delete_custom_software(config, "Mine").unwrap();
    assert_eq!(after.custom_software, vec![custom("Other")]);
    assert_eq!(after.mappings, vec![mapping("Git", "Clash")]);
    assert_eq!(after.profiles.len(), 3);
}

#[test]
fn a_profile_cannot_take_the_name_of_another() {
    let mut config = UserConfig::default();
    config.mappings = vec![mapping("Git", "Clash")];
    assert_eq!(
        update_profile(config.clone(), "Clash", profile("V2Ray", "127.0.0.1", 1)),
        Err("配置组 'V2Ray' 已存在".to_string())
    );
    assert_eq!(
        update_profile(config.clone(), "Nope", profile("V2Ray", "127.0.0.1", 1)),
        Err("配置组 'Nope' 不存在".to_string())
    );
    let same = update_profile(config.clone(), "Clash", profile("Clash", "10.0.0.1", 1)).unwrap();
    assert_eq!(same.profiles[0], profile("Clash", "10.0.0.1", 1));
    let renamed = update_profile(config, "Clash", profile("Mine", "10.0.0.1", 1)).unwrap();
    let names: Vec<&str> = renamed.profiles.iter().map(|p| p.name.as_str()).collect();
    assert_eq!(names, vec!["Mine", "V2Ray", "Veee"]);
    assert_eq!(renamed.mappings, vec![mapping("Git", "Mine")]);
}
