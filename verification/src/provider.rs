//! Session providers: what differs between the supported browsers.
//!
//! A browser variant decides the driver executable, the spelling of the
//! argument that binds the driver to its port, and the capabilities a
//! session asks for. Everything after the session is opened is the same for
//! every variant.

use crate::text::{decimal, decimal_string};
use vstd::prelude::*;

verus! {

/// The supported browsers.
#[derive(Clone, Copy, Debug, PartialEq, Eq, Structural)]
pub enum Browser {
    Chrome,
    Safari,
}

/// How the sessions of a batch are opened: the browser, the local port of
/// the driver, and whether the browser runs without a window.
#[derive(Clone, Copy, Debug, PartialEq, Eq, Structural)]
pub struct SessionConfig {
    pub browser: Browser,
    pub port: u16,
    pub headless: bool,
}

/// The command line that launches a driver: the name of the executable, to
/// be resolved on the executable search path, and its arguments.
#[derive(Debug, PartialEq, Eq)]
pub struct LaunchCommand {
    pub executable: String,
    pub args: Vec<String>,
}

/// The name of the driver executable of a browser.
pub open spec fn driver_executable(browser: Browser) -> Seq<char> {
    match browser {
        Browser::Chrome => "chromedriver"@,
        Browser::Safari => "safaridriver"@,
    }
}

/// The arguments that bind the driver of a browser to `port`. Chrome's
/// driver takes flag and port as one token, `--port=N`; Safari's takes them
/// as two, `--port` and `N`.
pub open spec fn driver_args(browser: Browser, port: u16) -> Seq<Seq<char>> {
    match browser {
        Browser::Chrome => seq!["--port="@ + decimal(port as nat)],
        Browser::Safari => seq!["--port"@, decimal(port as nat)],
    }
}

/// The address at which the driver bound to `port` accepts sessions.
pub open spec fn endpoint_url(port: u16) -> Seq<char> {
    "http://localhost:"@ + decimal(port as nat)
}

/// Whether sessions of `browser` run without a window unless told
/// otherwise. Chrome does; Safari keeps the platform's behaviour.
pub open spec fn default_headless(browser: Browser) -> bool {
    browser == Browser::Chrome
}

/// The browser arguments a session asks for: `--headless` for a headless
/// Chrome, none otherwise.
pub open spec fn session_args(config: SessionConfig) -> Seq<Seq<char>> {
    if config.browser == Browser::Chrome && config.headless {
        seq!["--headless"@]
    } else {
        Seq::empty()
    }
}

impl Browser {
    /// The name of this browser's driver executable.
    pub fn executable(&self) -> (name: &'static str)
        ensures
            name@ == driver_executable(*self),
    {
        match self {
            Browser::Chrome => "chromedriver",
            Browser::Safari => "safaridriver",
        }
    }
}

impl SessionConfig {
    /// The configuration of `browser` at `port` with the browser's defaults.
    pub fn new(browser: Browser, port: u16) -> (config: SessionConfig)
        ensures
            config == (SessionConfig { browser, port, headless: default_headless(browser) }),
    {
        let headless = match browser {
            Browser::Chrome => true,
            Browser::Safari => false,
        };
        SessionConfig { browser, port, headless }
    }

    /// The command line that launches this browser's driver on the port.
    pub fn launch_command(&self) -> (command: LaunchCommand)
        ensures
            command.executable@ == driver_executable(self.browser),
            command.args.deep_view() == driver_args(self.browser, self.port),
    {
        let port = decimal_string(self.port as u64);
        let mut args: Vec<String> = Vec::new();
        match self.browser {
            Browser::Chrome => {
                let mut flag = String::from_str("--port=");
                flag.append(port.as_str());
                args.push(flag);
            },
            Browser::Safari => {
                args.push(String::from_str("--port"));
                args.push(port);
            },
        }
        assert(args.deep_view() =~= driver_args(self.browser, self.port));
        LaunchCommand { executable: String::from_str(self.browser.executable()), args }
    }

    /// The address at which sessions are opened.
    pub fn endpoint(&self) -> (url: String)
        ensures
            url@ == endpoint_url(self.port),
    {
        let mut url = String::from_str("http://localhost:");
        url.append(decimal_string(self.port as u64).as_str());
        url
    }
}

} // verus!
