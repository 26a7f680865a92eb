use scrape_batch::provider::{Browser, LaunchCommand, SessionConfig};

#[test]
fn chrome_binds_the_port_with_one_combined_token() {
    let command = SessionConfig::new(Browser::Chrome, 4444).launch_command();
    assert_eq!(
        command,
        LaunchCommand {
            executable: "chromedriver".to_string(),
            args: vec!["--port=4444".to_string()],
        }
    );
}

#[test]
fn safari_binds_the_port_with_two_separate_tokens() {
    let command = SessionConfig::new(Browser::Safari, 4444).launch_command();
    assert_eq!(
        command,
        LaunchCommand {
            executable: "safaridriver".to_string(),
            args: vec!["--port".to_string(), "4444".to_string()],
        }
    );
}

#[test]
fn launch_command_at_the_ends_of_the_port_range() {
    assert_eq!(SessionConfig::new(Browser::Chrome, 0).launch_command().args, vec!["--port=0"]);
    assert_eq!(
        SessionConfig::new(Browser::Chrome, 65535).launch_command().args,
        vec!["--port=65535"]
    );
    assert_eq!(SessionConfig::new(Browser::Safari, 0).launch_command().args, vec!["--port", "0"]);
    assert_eq!(
        SessionConfig::new(Browser::Safari, 65535).launch_command().args,
        vec!["--port", "65535"]
    );
}

#[test]
fn launch_command_does_not_depend_on_headless() {
    let with_window = SessionConfig { browser: Browser::Chrome, port: 9515, headless: false };
    let headless = SessionConfig { browser: Browser::Chrome, port: 9515, headless: true };
    assert_eq!(with_window.launch_command(), headless.launch_command());
}

#[test]
fn driver_executables() {
    assert_eq!(Browser::Chrome.executable(), "chromedriver");
    assert_eq!(Browser::Safari.executable(), "safaridriver");
}

#[test]
fn endpoint_is_localhost_at_the_port() {
    assert_eq!(SessionConfig::new(Browser::Chrome, 4444).endpoint(), "http://localhost:4444");
    assert_eq!(SessionConfig::new(Browser::Safari, 80).endpoint(), "http://localhost:80");
    assert_eq!(SessionConfig::new(Browser::Safari, 65535).endpoint(), "http://localhost:65535");
}

#[test]
fn chrome_is_headless_by_default_and_safari_is_not() {
    assert_eq!(
        SessionConfig::new(Browser::Chrome, 4444),
        SessionConfig { browser: Browser::Chrome, port: 4444, headless: true }
    );
    assert_eq!(
        SessionConfig::new(Browser::Safari, 4444),
        SessionConfig { browser: Browser::Safari, port: 4444, headless: false }
    );
}

#[test]
fn a_config_is_copied_per_task() {
    let config = SessionConfig::new(Browser::Chrome, 4444);
    let copies: Vec<SessionConfig> = (0..3).map(|_| config).collect();
    for copy in copies {
        assert_eq!(copy, config);
        assert_eq!(copy.endpoint(), "http://localhost:4444");
    }
}
