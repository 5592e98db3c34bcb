//! Usage figures.

use vstd::prelude::*;

use crate::binary64::Binary64;
use crate::time::UnixTime;

verus! {

/// One usage window: how much of it is used up, and when it starts over.
#[derive(Clone, Copy, Debug, PartialEq, Eq, Structural)]
pub struct UsageSection {
    pub percentage: Binary64,
    pub resets_at: Option<UnixTime>,
}

/// The two usage windows of one service.
#[derive(Clone, Copy, Debug, PartialEq, Eq, Structural)]
pub struct UsageData {
    pub session: UsageSection,
    pub weekly: UsageSection,
}

/// What is known of each service.
#[derive(Clone, Copy, Debug, PartialEq, Eq, Structural)]
pub struct AppUsageData {
    pub claude_code: Option<UsageData>,
    pub codex: Option<UsageData>,
}

impl UsageSection {
    /// Nothing used, and no reset time known.
    pub open spec fn empty() -> UsageSection {
        UsageSection { percentage: Binary64 { bits: 0 }, resets_at: None }
    }

    /// The reset time, if there is one, is a proper instant.
    pub open spec fn wf(self) -> bool {
        self.resets_at matches Some(t) ==> t.wf()
    }

    /// The reset time has come at `now`.
    pub open spec fn past_reset_at(self, now: UnixTime) -> bool {
        self.resets_at matches Some(t) && now.total() >= t.total()
    }
}

impl UsageData {
    /// Nothing known of either window.
    pub open spec fn empty() -> UsageData {
        UsageData { session: UsageSection::empty(), weekly: UsageSection::empty() }
    }

    /// Both windows are proper.
    pub open spec fn wf(self) -> bool {
        self.session.wf() && self.weekly.wf()
    }

    /// One of the windows has reached its reset time at `now`.
    pub open spec fn past_reset_at(self, now: UnixTime) -> bool {
        self.session.past_reset_at(now) || self.weekly.past_reset_at(now)
    }
}

impl AppUsageData {
    /// One of the services has a window that reached its reset time at `now`.
    pub open spec fn past_reset_at(self, now: UnixTime) -> bool {
        ||| self.claude_code matches Some(data) && data.past_reset_at(now)
        ||| self.codex matches Some(data) && data.past_reset_at(now)
    }
}

impl Default for UsageSection {
    fn default() -> (section: UsageSection)
        ensures
            section == UsageSection::empty(),
    {
        UsageSection { percentage: Binary64 { bits: 0 }, resets_at: None }
    }
}

impl Default for UsageData {
    fn default() -> (data: UsageData)
        ensures
            data == UsageData::empty(),
    {
        UsageData { session: UsageSection::default(), weekly: UsageSection::default() }
    }
}

impl Default for AppUsageData {
    fn default() -> (data: AppUsageData)
        ensures
            data.claude_code is None,
            data.codex is None,
    {
        AppUsageData { claude_code: None, codex: None }
    }
}

} // verus!
