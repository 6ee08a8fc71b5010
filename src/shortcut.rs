//! The global shortcut that the app has registered, as an owned state
//! object, and the decisions taken when the user picks a new one.

use vstd::prelude::*;
use crate::text::{normalize_token, normalized_token, opt_text};

verus! {

/// The shortcut currently registered by the app, if any.
pub struct ShortcutSlot {
    pub managed: Option<String>,
}

/// What to do to move from the managed shortcut to a requested one.
pub struct ShortcutPlan {
    /// Nothing to do: the request names the shortcut already registered.
    pub unchanged: bool,
    /// The shortcut to unregister first.
    pub unregister: Option<String>,
    /// The shortcut to register next; none disables the shortcut.
    pub register: Option<String>,
}

/// A new slot, managing no shortcut.
pub fn managed_shortcut_slot() -> (r: ShortcutSlot)
    ensures
        r.managed is None,
{
    ShortcutSlot { managed: None }
}

fn same_token(a: &Option<String>, b: &Option<String>) -> (r: bool)
    ensures
        r == (opt_text(*a) == opt_text(*b)),
{
    match (a, b) {
        (Some(x), Some(y)) => *x == *y,
        (None, None) => true,
        _ => false,
    }
}

fn copy_token(a: &Option<String>) -> (r: Option<String>)
    ensures
        opt_text(r) == opt_text(*a),
{
    match a {
        Some(x) => Some(x.clone()),
        None => None,
    }
}

impl ShortcutSlot {
    /// The steps that replace the managed shortcut by the requested one: the
    /// request is trimmed and a blank one means "no shortcut"; nothing is
    /// done when it equals the managed one, else the managed one is
    /// unregistered and the requested one registered.
    pub fn plan_update(&self, requested: Option<String>) -> (r: ShortcutPlan)
        ensures
            r.unchanged == (normalized_token(opt_text(requested)) == opt_text(self.managed)),
            !r.unchanged ==> opt_text(r.unregister) == opt_text(self.managed) && opt_text(
                r.register,
            ) == normalized_token(opt_text(requested)),
            r.unchanged ==> r.unregister is None && r.register is None,
    {
        let wanted = normalize_token(requested);
        if same_token(&wanted, &self.managed) {
            ShortcutPlan { unchanged: true, unregister: None, register: None }
        } else {
            ShortcutPlan { unchanged: false, unregister: copy_token(&self.managed), register: wanted }
        }
    }

    /// Records the outcome of unregistering the managed shortcut: on
    /// success the slot is empty, on failure it is kept.
    pub fn after_unregister(&mut self, succeeded: bool)
        ensures
            succeeded ==> final(self).managed is None,
            !succeeded ==> opt_text(final(self).managed) == opt_text(old(self).managed),
    {
        if succeeded {
            self.managed = None;
        }
    }

    /// Records the outcome of registering `shortcut`: on success it is the
    /// managed shortcut, on failure the slot is left as it was.
    pub fn after_register(&mut self, shortcut: String, succeeded: bool)
        ensures
            succeeded ==> opt_text(final(self).managed) == Some(shortcut@),
            !succeeded ==> opt_text(final(self).managed) == opt_text(old(self).managed),
    {
        if succeeded {
            self.managed = Some(shortcut);
        }
    }

    /// Records that the shortcut was disabled.
    pub fn disable(&mut self)
        ensures
            final(self).managed is None,
    {
        self.managed = None;
    }
}

} // verus!
