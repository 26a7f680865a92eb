//! The capabilities a session asks for, built with the WebDriver client.

use crate::error::ErrorKind;
use crate::provider::{session_args, Browser, SessionConfig};
use thirtyfour::error::WebDriverError;
use thirtyfour::{
    ChromeCapabilities, ChromiumLikeCapabilities, DesiredCapabilities, SafariCapabilities,
};
use vstd::prelude::*;

verus! {

/// `thirtyfour::ChromeCapabilities`, the capabilities of a Chrome session.
/// What the library knows of a value is the arguments it holds.
#[verifier::external_type_specification]
#[verifier::external_body]
pub struct ExChromeCapabilities(ChromeCapabilities);

/// `thirtyfour::SafariCapabilities`, the capabilities of a Safari session,
/// carried through as they are.
#[verifier::external_type_specification]
#[verifier::external_body]
pub struct ExSafariCapabilities(SafariCapabilities);

/// `thirtyfour::error::WebDriverError`, the failure of a call into the
/// WebDriver client. The library reads nothing from it.
#[verifier::external_type_specification]
#[verifier::external_body]
pub struct ExWebDriverError(WebDriverError);

/// The command-line arguments that Chrome capabilities hold for the
/// browser, in the order in which they were added: what
/// `thirtyfour::BrowserCapabilitiesHelper::args` reads from them.
pub uninterp spec fn chrome_args(caps: ChromeCapabilities) -> Seq<Seq<char>>;

/// A list of arguments after `arg` was added: an argument already in the
/// list is not added again.
pub open spec fn with_arg(args: Seq<Seq<char>>, arg: Seq<char>) -> Seq<Seq<char>> {
    if args.contains(arg) {
        args
    } else {
        args.push(arg)
    }
}

/// `thirtyfour::DesiredCapabilities::chrome`: fresh capabilities for Chrome.
/// They name the browser and hold no argument yet.
#[verifier::external_body]
fn new_chrome_capabilities() -> (caps: ChromeCapabilities)
    ensures
        chrome_args(caps) == Seq::<Seq<char>>::empty(),
{
    DesiredCapabilities::chrome()
}

/// `thirtyfour::DesiredCapabilities::safari`: fresh capabilities for Safari,
/// which name the browser and leave everything else to the platform.
#[verifier::external_body]
fn new_safari_capabilities() -> (caps: SafariCapabilities) {
    DesiredCapabilities::safari()
}

/// `thirtyfour::ChromiumLikeCapabilities::add_arg` on Chrome capabilities.
/// It succeeds on every argument: the only step of it that can fail is
/// turning a list of strings, and an object keyed by a string, into JSON
/// values, which never does. Afterwards `arg` stands at the end of the
/// arguments unless it was among them already; the other arguments keep
/// their places.
#[verifier::external_body]
fn add_chrome_arg(caps: &mut ChromeCapabilities, arg: &str) -> (added: Result<(), WebDriverError>)
    ensures
        added is Ok,
        chrome_args(*final(caps)) == with_arg(chrome_args(*old(caps)), arg@),
{
    caps.add_arg(arg)
}

/// The capabilities of one session, by browser.
#[derive(Debug)]
pub enum SessionCapabilities {
    Chrome(ChromeCapabilities),
    Safari(SafariCapabilities),
}

/// What becomes of Chrome capabilities after the attempt to add an
/// argument: the capabilities where it succeeded, a failed session build
/// where it did not.
pub fn chrome_session(
    caps: ChromeCapabilities,
    added: Result<(), WebDriverError>,
) -> (session: Result<SessionCapabilities, ErrorKind>)
    ensures
        added is Ok ==> session == Ok::<SessionCapabilities, ErrorKind>(
            SessionCapabilities::Chrome(caps),
        ),
        added is Err ==> session == Err::<SessionCapabilities, ErrorKind>(
            ErrorKind::SessionBuildError,
        ),
{
    match added {
        Ok(_) => Ok(SessionCapabilities::Chrome(caps)),
        Err(_) => Err(ErrorKind::SessionBuildError),
    }
}

impl SessionConfig {
    /// The capabilities a session of this configuration asks for. Every
    /// configuration gets its capabilities: Safari those of Safari, Chrome
    /// those of Chrome, which hold `--headless` as their only argument for a
    /// headless Chrome and no argument for a Chrome with a window.
    pub fn capabilities(&self) -> (session: Result<SessionCapabilities, ErrorKind>)
        ensures
            session is Ok,
            match session {
                Ok(SessionCapabilities::Chrome(caps)) => self.browser == Browser::Chrome
                    && chrome_args(caps) == session_args(*self),
                Ok(SessionCapabilities::Safari(_)) => self.browser == Browser::Safari,
                Err(_) => false,
            },
    {
        match self.browser {
            Browser::Chrome => {
                let mut caps = new_chrome_capabilities();
                if self.headless {
                    let added = add_chrome_arg(&mut caps, "--headless");
                    assert(with_arg(Seq::<Seq<char>>::empty(), "--headless"@) =~= seq![
                        "--headless"@,
                    ]);
                    chrome_session(caps, added)
                } else {
                    Ok(SessionCapabilities::Chrome(caps))
                }
            },
            Browser::Safari => Ok(SessionCapabilities::Safari(new_safari_capabilities())),
        }
    }
}

} // verus!
