//! Opt-in settings for contributing fixes to the shared knowledge base, and
//! the anonymized contribution record.
use vstd::prelude::*;

verus! {

/// A command a user contributes, anonymized.
pub struct Contribution {
    pub command: String,
    pub context_tags: Vec<String>,
    pub error_message: Option<String>,
    /// A rating from one to five stars, where given.
    pub success_rating: Option<u8>,
    /// When it was contributed, in seconds since the epoch.
    pub created_at: i64,
    pub contributor_hash: String,
    pub platform: Option<String>,
    pub shell: Option<String>,
}

/// Whether and what the user contributes.
pub struct CommunityConfig {
    pub opt_in: bool,
    pub include_errors: bool,
    pub share_metrics: bool,
    /// The last upload, in seconds since the epoch.
    pub last_sync: Option<i64>,
    pub sync_interval_hours: u32,
}

impl Default for CommunityConfig {
    /// Nothing is shared until the user opts in; uploads daily.
    fn default() -> (r: Self)
        ensures
            !r.opt_in,
            !r.include_errors,
            !r.share_metrics,
            r.last_sync is None,
            r.sync_interval_hours == 24,
    {
        CommunityConfig {
            opt_in: false,
            include_errors: false,
            share_metrics: false,
            last_sync: None,
            sync_interval_hours: 24,
        }
    }
}

/// The contribution settings and the file they are kept in.
pub struct CommunityMoatManager {
    pub config_path: String,
    pub config: CommunityConfig,
}

impl CommunityMoatManager {
    /// Settings kept at `config_path`.
    pub fn with_config(config_path: String, config: CommunityConfig) -> (r: Self)
        ensures
            r.config_path == config_path,
            r.config == config,
    {
        CommunityMoatManager { config_path, config }
    }

    /// Opts in, choosing whether errors and success metrics are shared.
    pub fn enable_contributions(&mut self, include_errors: bool, share_metrics: bool)
        ensures
            final(self).config.opt_in,
            final(self).config.include_errors == include_errors,
            final(self).config.share_metrics == share_metrics,
            final(self).config.last_sync == old(self).config.last_sync,
            final(self).config.sync_interval_hours == old(self).config.sync_interval_hours,
            final(self).config_path == old(self).config_path,
    {
        self.config.opt_in = true;
        self.config.include_errors = include_errors;
        self.config.share_metrics = share_metrics;
    }

    /// Opts out; the other settings stay.
    pub fn disable_contributions(&mut self)
        ensures
            !final(self).config.opt_in,
            final(self).config.include_errors == old(self).config.include_errors,
            final(self).config.share_metrics == old(self).config.share_metrics,
            final(self).config.last_sync == old(self).config.last_sync,
            final(self).config.sync_interval_hours == old(self).config.sync_interval_hours,
            final(self).config_path == old(self).config_path,
    {
        self.config.opt_in = false;
    }

    /// Whether an upload is due at `now`: only when opted in, and then where
    /// none was made yet or `now` is past the last.
    pub fn should_sync(&self, now: i64) -> (r: bool)
        ensures
            r == (self.config.opt_in && (self.config.last_sync is None || now > self.config.last_sync->Some_0)),
    {
        if !self.config.opt_in {
            return false;
        }
        match self.config.last_sync {
            None => true,
            Some(t) => now > t,
        }
    }

    /// The contribution of `command`, keeping its error only where the user
    /// allows errors to be shared.
    pub fn capture_command(
        &self,
        command: &str,
        context_tags: Vec<String>,
        error_message: Option<String>,
        success_rating: Option<u8>,
        created_at: i64,
        contributor_hash: String,
        platform: Option<String>,
        shell: Option<String>,
    ) -> (r: Contribution)
        ensures
            r.command@ == command@,
            r.context_tags == context_tags,
            self.config.include_errors ==> r.error_message == error_message,
            !self.config.include_errors ==> r.error_message is None,
            r.success_rating == success_rating,
            r.created_at == created_at,
            r.contributor_hash == contributor_hash,
            r.platform == platform,
            r.shell == shell,
    {
        Contribution {
            command: command.to_owned(),
            context_tags,
            error_message: if self.config.include_errors { error_message } else { None },
            success_rating,
            created_at,
            contributor_hash,
            platform,
            shell,
        }
    }

    /// Records an upload of `contributions` at `now`; refused where the user
    /// has not opted in. Gives the number uploaded.
    pub fn sync_contributions(&mut self, contributions: &Vec<Contribution>, now: i64) -> (r: Option<usize>)
        ensures
            !old(self).config.opt_in ==> r is None && final(self).config == old(self).config,
            old(self).config.opt_in ==> r == Some(contributions@.len() as usize)
                && final(self).config.last_sync == Some(now)
                && final(self).config.opt_in,
            final(self).config_path == old(self).config_path,
    {
        if !self.config.opt_in {
            return None;
        }
        self.config.last_sync = Some(now);
        Some(contributions.len())
    }
}

} // verus!
