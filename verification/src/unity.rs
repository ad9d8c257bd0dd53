//! Ubuntu/Unity `com.canonical.Unity.LauncherEntry.Update` sender: the names it
//! speaks under, and when it speaks.
//!
//! The sender reports the summary progress of the pending file operations so the
//! panel can paint it on this application's button. The bus connection is the
//! caller's; which update goes out, and when, is decided here.

use vstd::prelude::*;
use crate::text::chars_of;
use crate::text::push_str_chars;
use crate::text::string_of;

verus! {

/// The app id of the window that shows the file operations.
pub const OPERATIONS_APP_ID: &'static str = "fun.wmde.files.operations";

/// The desktop file id, suffix included - that is how libunity builds the uri and
/// how every receiver expects it. The bar belongs to the window that shows the
/// operation, so the key is that window's app id.
pub const APP_URI: &'static str = "application://fun.wmde.files.operations.desktop";

/// libunity puts the object at `/com/canonical/unity/launcherentry/<hash of uri>`.
/// Every known receiver subscribes with no path filter, so the exact value only
/// matters to somebody reading the bus by hand.
pub const OBJECT_PATH: &'static str = "/com/canonical/unity/launcherentry/wmde_files";

pub const INTERFACE: &'static str = "com.canonical.Unity.LauncherEntry";

/// The well-known name a receiver of this protocol takes. Its appearance means a
/// fresh receiver with an empty state, so everything known has to be announced
/// again.
pub const UNITY_NAME: &'static str = "com.canonical.Unity";

/// The launcher uri of a desktop entry: `application://<id>.desktop`.
pub open spec fn launcher_uri_text(app_id: Seq<char>) -> Seq<char> {
    "application://"@ + app_id + ".desktop"@
}

/// The launcher uri of the desktop entry with the given app id.
pub fn launcher_uri(app_id: &str) -> (r: String)
    ensures
        r@ == launcher_uri_text(app_id@),
{
    let mut v: Vec<char> = Vec::new();
    push_str_chars(&mut v, "application://");
    push_str_chars(&mut v, app_id);
    push_str_chars(&mut v, ".desktop");
    string_of(v.as_slice())
}

/// The uri the updates are sent under is the launcher uri of the operations
/// window.
pub proof fn lemma_app_uri_is_operations_window()
    ensures
        APP_URI@ == launcher_uri_text(OPERATIONS_APP_ID@),
{
    reveal_strlit("application://fun.wmde.files.operations.desktop");
    reveal_strlit("fun.wmde.files.operations");
    reveal_strlit("application://");
    reveal_strlit(".desktop");
    assert(APP_URI@ =~= launcher_uri_text(OPERATIONS_APP_ID@));
}

/// What the sender remembers across connections: the last update. The
/// application only publishes what changed, so after a bus failure - or after a
/// receiver restarted with an empty state - nothing at all would be sent until the
/// percentage moved, and a paused operation never moves it.
pub struct LauncherState<T> {
    last: Option<T>,
}

impl<T: Copy> LauncherState<T> {
    /// The update sent last, if any.
    pub closed spec fn last(&self) -> Option<T> {
        self.last
    }

    pub fn new() -> (r: Self)
        ensures
            r.last() is None,
    {
        LauncherState { last: None }
    }

    /// On a new connection: what was already reported is stale for everybody on
    /// it, so the last update, if any, goes out again.
    pub fn on_connect(&self) -> (r: Option<T>)
        ensures
            r == self.last(),
    {
        self.last
    }

    /// An update from the application: it is remembered and goes out.
    pub fn on_update(&mut self, update: T) -> (r: T)
        ensures
            r == update,
            final(self).last() == Some(update),
    {
        self.last = Some(update);
        update
    }

    /// The receiver's name changed owner: a receiver that just took it knows
    /// nothing about an operation started before it, so the last update, if any,
    /// goes out again; a name that was let go needs nothing.
    pub fn on_owner_change(&self, took_the_name: bool) -> (r: Option<T>)
        ensures
            r == if took_the_name {
                self.last()
            } else {
                None
            },
    {
        if took_the_name {
            self.last
        } else {
            None
        }
    }
}

} // verus!
