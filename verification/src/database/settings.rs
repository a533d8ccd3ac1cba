//! Reading and changing the settings record.

use super::Database;
use crate::error::DbError;
use crate::invariants::lemma_with_settings;
use crate::model::merged_settings;
use crate::models::{AppSettings, UpdateSettingsRequest};
use crate::rows::copy_settings;
use vstd::prelude::*;

verus! {

impl Database {
    /// The settings in force: those stored, or the initial ones where
    /// none are stored.
    pub fn get_app_settings(&self) -> (r: Result<AppSettings, DbError>)
        ensures
            r matches Ok(settings) && settings@ == self@.current_settings(),
    {
        match &self.settings {
            Some(stored) => Ok(copy_settings(stored)),
            None => Ok(AppSettings::default()),
        }
    }

    /// Applies a partial change to the settings and stores the outcome:
    /// each field that the request holds replaces the one in force.
    /// Gives the settings as stored.
    pub fn update_app_settings(&mut self, request: UpdateSettingsRequest) -> (r: Result<
        AppSettings,
        DbError,
    >)
        requires
            old(self).wf(),
        ensures
            final(self).wf(),
            r matches Ok(settings) && settings@ == merged_settings(
                old(self)@.current_settings(),
                request.close_behavior,
                request.notifications_enabled,
                request.notification_time_before,
                request.startup_behavior,
                request.theme.deep_view(),
            ) && final(self)@ == old(self)@.with_settings(settings@),
    {
        let current = match &self.settings {
            Some(stored) => copy_settings(stored),
            None => AppSettings::default(),
        };
        let UpdateSettingsRequest {
            close_behavior,
            notifications_enabled,
            notification_time_before,
            startup_behavior,
            theme,
        } = request;
        let merged = AppSettings {
            close_behavior: match close_behavior {
                Some(v) => v,
                None => current.close_behavior,
            },
            notifications_enabled: match notifications_enabled {
                Some(v) => v,
                None => current.notifications_enabled,
            },
            notification_time_before: match notification_time_before {
                Some(v) => v,
                None => current.notification_time_before,
            },
            startup_behavior: match startup_behavior {
                Some(v) => v,
                None => current.startup_behavior,
            },
            theme: match theme {
                Some(v) => v,
                None => current.theme,
            },
        };
        self.settings = Some(copy_settings(&merged));
        proof {
            assert(self@ == old(self)@.with_settings(merged@));
            lemma_with_settings(old(self)@, merged@);
        }
        Ok(merged)
    }
}

} // verus!
