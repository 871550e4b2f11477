use rsocks::config::{resolve_settings, OptionalConfig};

fn empty_source() -> OptionalConfig {
    OptionalConfig {
        listen_interface: None,
        endpoint_interface: None,
        port: None,
        buffer_size: None,
        read_timeout: None,
        accept_cidr: None,
    }
}

#[test]
fn without_a_file_everything_is_default() {
    // With no file, even environment values are left alone.
    let mut env = empty_source();
    env.port = Some(9999);
    let settings = resolve_settings(None, env);
    assert_eq!(settings.listen_interface, None);
    assert_eq!(settings.endpoint_interface, None);
    assert_eq!(settings.port, 1080);
    assert_eq!(settings.buffer_size, 2048);
    assert_eq!(settings.read_timeout, 5000);
    assert_eq!(settings.accept_cidr, "0.0.0.0/0");
}

#[test]
fn file_values_beat_environment_values() {
    let mut file = empty_source();
    file.port = Some(1234);
    file.accept_cidr = Some("10.0.0.0/8".to_owned());
    let mut env = empty_source();
    env.port = Some(5678);
    env.accept_cidr = Some("192.168.0.0/16".to_owned());

    let settings = resolve_settings(Some(file), env);
    assert_eq!(settings.port, 1234);
    assert_eq!(settings.accept_cidr, "10.0.0.0/8");
}

#[test]
fn environment_fills_keys_the_file_lacks() {
    let file = empty_source();
    let mut env = empty_source();
    env.listen_interface = Some("eth0".to_owned());
    env.buffer_size = Some(512);
    env.read_timeout = Some(100);

    let settings = resolve_settings(Some(file), env);
    assert_eq!(settings.listen_interface, Some("eth0".to_owned()));
    assert_eq!(settings.endpoint_interface, None);
    assert_eq!(settings.port, 1080);
    assert_eq!(settings.buffer_size, 512);
    assert_eq!(settings.read_timeout, 100);
    assert_eq!(settings.accept_cidr, "0.0.0.0/0");
}

#[test]
fn defaults_fill_what_neither_source_has() {
    let settings = resolve_settings(Some(empty_source()), empty_source());
    assert_eq!(settings.port, 1080);
    assert_eq!(settings.buffer_size, 2048);
    assert_eq!(settings.read_timeout, 5000);
    assert_eq!(settings.accept_cidr, "0.0.0.0/0");
}
