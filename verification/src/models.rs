//! User preference records.

use vstd::prelude::*;

verus! {

/// Per-channel notification switches.
#[derive(Clone, Copy, Debug, PartialEq, Eq, Structural)]
pub struct NotificationSettings {
    pub email: bool,
    pub push: bool,
    pub budget_alert: bool,
}

/// A user's display and locale preferences.
#[derive(Clone, Debug)]
pub struct UserSettings {
    pub default_currency: String,
    pub timezone: String,
    pub language: String,
    pub theme: String,
    pub notifications: NotificationSettings,
}

impl Default for UserSettings {
    /// The settings a new account starts with: CNY, Shanghai time,
    /// simplified Chinese, the light theme, and every notification
    /// channel switched on.
    fn default() -> (s: UserSettings)
        ensures
            s.default_currency@ == "CNY"@,
            s.timezone@ == "Asia/Shanghai"@,
            s.language@ == "zh-CN"@,
            s.theme@ == "light"@,
            s.notifications == (NotificationSettings { email: true, push: true, budget_alert: true }),
    {
        UserSettings {
            default_currency: "CNY".to_owned(),
            timezone: "Asia/Shanghai".to_owned(),
            language: "zh-CN".to_owned(),
            theme: "light".to_owned(),
            notifications: NotificationSettings { email: true, push: true, budget_alert: true },
        }
    }
}

} // verus!
