use crate::error::{ErrorCode, ErrorCodeView, ErrorResponse, ErrorResponseView};
use crate::game::game_manager::new_uuid;
use crate::text_map::TextMap;
use vstd::prelude::*;
use vstd::string::*;

verus! {

/// Keys that each allow one action: a key is handed out for a context, and
/// it can be used once, until it expires.
#[derive(Debug)]
pub struct ActionTimerManager {
    active_action_keys: TextMap<String>,
    expired_action_keys: TextMap<String>,
}

/// The keys as the contracts see them: the contexts of the keys that can
/// still be used, and of those that have expired.
pub ghost struct ActionKeysView {
    pub active: Map<Seq<char>, Seq<char>>,
    pub expired: Map<Seq<char>, Seq<char>>,
}

impl View for ActionTimerManager {
    type V = ActionKeysView;

    closed spec fn view(&self) -> ActionKeysView {
        ActionKeysView {
            active: self.active_action_keys@.map_values(|t: String| t@),
            expired: self.expired_action_keys@.map_values(|t: String| t@),
        }
    }
}

impl Default for ActionTimerManager {
    /// A manager without any key.
    fn default() -> (manager: ActionTimerManager)
        ensures
            manager.wf(),
            manager@.active == Map::<Seq<char>, Seq<char>>::empty(),
            manager@.expired == Map::<Seq<char>, Seq<char>>::empty(),
    {
        ActionTimerManager::new()
    }
}

impl Clone for ActionTimerManager {
    /// A manager without any key: the keys belong to the manager that
    /// handed them out, and a copy starts without them.
    fn clone(&self) -> (manager: ActionTimerManager)
        ensures
            manager.wf(),
            manager@.active == Map::<Seq<char>, Seq<char>>::empty(),
            manager@.expired == Map::<Seq<char>, Seq<char>>::empty(),
    {
        ActionTimerManager::new()
    }
}

/// The refusal of a key that has expired.
pub open spec fn expired_key_error() -> ErrorResponseView {
    ErrorResponseView {
        error: ErrorCodeView::InvalidInput("Action key has expired"@),
        message: "This action is no longer valid"@,
    }
}

/// The refusal of a key that is unknown or has been used.
pub open spec fn unknown_key_error() -> ErrorResponseView {
    ErrorResponseView {
        error: ErrorCodeView::InvalidInput("Invalid action key"@),
        message: "Action key not found or already used"@,
    }
}

impl ActionTimerManager {
    pub closed spec fn wf(&self) -> bool {
        self.active_action_keys.wf() && self.expired_action_keys.wf()
    }

    /// A manager without any key.
    pub fn new() -> (manager: ActionTimerManager)
        ensures
            manager.wf(),
            manager@.active == Map::<Seq<char>, Seq<char>>::empty(),
            manager@.expired == Map::<Seq<char>, Seq<char>>::empty(),
    {
        let manager = ActionTimerManager {
            active_action_keys: TextMap::new(),
            expired_action_keys: TextMap::new(),
        };
        assert(manager@.active =~= Map::<Seq<char>, Seq<char>>::empty());
        assert(manager@.expired =~= Map::<Seq<char>, Seq<char>>::empty());
        manager
    }

    /// Makes `action_key` a key for `context`.
    pub fn register_action_key(&mut self, action_key: String, context: &str)
        requires
            old(self).wf(),
        ensures
            final(self).wf(),
            final(self)@.active == old(self)@.active.insert(action_key@, context@),
            final(self)@.expired == old(self)@.expired,
    {
        self.active_action_keys.insert(action_key, String::from_str(context));
        assert(self@.active =~= old(self)@.active.insert(action_key@, context@));
    }

    /// Hands out a fresh key for `context`.
    pub fn generate_action_key(&mut self, context: &str) -> (action_key: String)
        requires
            old(self).wf(),
        ensures
            final(self).wf(),
            final(self)@.active == old(self)@.active.insert(action_key@, context@),
            final(self)@.expired == old(self)@.expired,
    {
        let action_key = new_uuid();
        self.register_action_key(action_key.clone(), context);
        action_key
    }

    /// Whether `action_key` can be used: it was handed out, and it has
    /// neither been used nor expired.
    pub fn validate_action_key(&self, action_key: &str) -> (r: bool)
        requires
            self.wf(),
        ensures
            r == (self@.active.contains_key(action_key@) && !self@.expired.contains_key(
                action_key@,
            )),
    {
        self.active_action_keys.contains_key(action_key) && !self.expired_action_keys.contains_key(
            action_key,
        )
    }

    /// Uses `action_key` and gives the context that it was handed out for.
    /// A key that has expired is refused, and so is one that is unknown or
    /// has been used.
    pub fn consume_action_key(&mut self, action_key: &str) -> (r: Result<String, ErrorResponse>)
        requires
            old(self).wf(),
        ensures
            final(self).wf(),
            final(self)@.expired == old(self)@.expired,
            if old(self)@.expired.contains_key(action_key@) {
                r is Err && r->Err_0@ == expired_key_error() && final(self)@ == old(self)@
            } else if old(self)@.active.contains_key(action_key@) {
                r is Ok && r->Ok_0@ == old(self)@.active[action_key@] && final(self)@.active == old(
                    self,
                )@.active.remove(action_key@)
            } else {
                r is Err && r->Err_0@ == unknown_key_error() && final(self)@ == old(self)@
            },
    {
        if self.expired_action_keys.contains_key(action_key) {
            return Err(
                ErrorResponse {
                    error: ErrorCode::InvalidInput(String::from_str("Action key has expired")),
                    message: String::from_str("This action is no longer valid"),
                },
            );
        }
        match self.active_action_keys.remove(action_key) {
            Some(context) => {
                assert(self@.active =~= old(self)@.active.remove(action_key@));
                Ok(context)
            },
            None => {
                assert(self@.active =~= old(self)@.active);
                Err(
                    ErrorResponse {
                        error: ErrorCode::InvalidInput(String::from_str("Invalid action key")),
                        message: String::from_str("Action key not found or already used"),
                    },
                )
            },
        }
    }

    /// Lets `action_key` expire, if it can still be used.
    pub fn expire_action_key(&mut self, action_key: &str)
        requires
            old(self).wf(),
        ensures
            final(self).wf(),
            if old(self)@.active.contains_key(action_key@) {
                &&& final(self)@.active == old(self)@.active.remove(action_key@)
                &&& final(self)@.expired == old(self)@.expired.insert(
                    action_key@,
                    old(self)@.active[action_key@],
                )
            } else {
                final(self)@ == old(self)@
            },
    {
        match self.active_action_keys.remove(action_key) {
            Some(context) => {
                self.expired_action_keys.insert(String::from_str(action_key), context);
                assert(self@.active =~= old(self)@.active.remove(action_key@));
                assert(self@.expired =~= old(self)@.expired.insert(
                    action_key@,
                    old(self)@.active[action_key@],
                ));
            },
            None => {
                assert(self@.active =~= old(self)@.active);
            },
        }
    }
}

} // verus!
