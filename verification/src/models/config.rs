//! The settings.
use crate::table::Dup;
use crate::text::{own, trim, trimmed};
use crate::handlers::system::manual_import::{RenderContext, RenderContextView};
use vstd::prelude::*;

verus! {

/// The settings as the program uses them.
#[derive(Debug)]
pub struct Config {
    pub qbit_url: String,
    pub qbit_user: String,
    pub qbit_pass: String,
    pub qbit_category: String,
    pub qbit_download_path: String,
    pub jellyfin_url: String,
    pub jellyfin_api_key: String,
    pub preferred_groups: String,
    pub blocked_groups: String,
    pub preferred_resolution: String,
    pub preferred_source: String,
    pub cutoff_source: String,
    pub cutoff_resolution: String,
    /// The preferred quality as earlier versions kept it.
    pub quality_profile: String,
    /// The cutoff as earlier versions kept it.
    pub quality_cutoff: String,
    pub finished_series_quality: String,
    pub media_root: String,
    pub title_language: String,
    pub force_mal_fallback: bool,
    pub rss_enabled: bool,
    pub rss_interval_minutes: i32,
    pub force_kitsu_fallback: bool,
    pub post_processing_enabled: bool,
    pub post_processing_mode: String,
    pub auto_grab_on_add: bool,
    pub prefer_subs: bool,
    pub allow_non_english: bool,
    pub sonarr_enabled: bool,
    pub sonarr_api_key: String,
    pub radarr_enabled: bool,
    pub radarr_api_key: String,
    pub upgrade_search_enabled: bool,
    /// The lowest score a candidate may have; the least number for none.
    pub custom_format_minimum_score: i32,
    /// Whether the best releases of SeaDex score higher.
    pub seadex_enabled: bool,
    /// What is added to every search, unless the series has its own.
    pub default_custom_query_tokens: String,
    /// The one uploader to search, unless the series has its own.
    pub default_restrict_to_uploader: String,
}

/// The contents of a [`Config`].
#[verifier::ext_equal]
pub struct ConfigView {
    pub qbit_url: Seq<char>,
    pub qbit_user: Seq<char>,
    pub qbit_pass: Seq<char>,
    pub qbit_category: Seq<char>,
    pub qbit_download_path: Seq<char>,
    pub jellyfin_url: Seq<char>,
    pub jellyfin_api_key: Seq<char>,
    pub preferred_groups: Seq<char>,
    pub blocked_groups: Seq<char>,
    pub preferred_resolution: Seq<char>,
    pub preferred_source: Seq<char>,
    pub cutoff_source: Seq<char>,
    pub cutoff_resolution: Seq<char>,
    pub quality_profile: Seq<char>,
    pub quality_cutoff: Seq<char>,
    pub finished_series_quality: Seq<char>,
    pub media_root: Seq<char>,
    pub title_language: Seq<char>,
    pub force_mal_fallback: bool,
    pub rss_enabled: bool,
    pub rss_interval_minutes: i32,
    pub force_kitsu_fallback: bool,
    pub post_processing_enabled: bool,
    pub post_processing_mode: Seq<char>,
    pub auto_grab_on_add: bool,
    pub prefer_subs: bool,
    pub allow_non_english: bool,
    pub sonarr_enabled: bool,
    pub sonarr_api_key: Seq<char>,
    pub radarr_enabled: bool,
    pub radarr_api_key: Seq<char>,
    pub upgrade_search_enabled: bool,
    pub custom_format_minimum_score: i32,
    pub seadex_enabled: bool,
    pub default_custom_query_tokens: Seq<char>,
    pub default_restrict_to_uploader: Seq<char>,
}

impl View for Config {
    type V = ConfigView;

    open spec fn view(&self) -> ConfigView {
        ConfigView {
            qbit_url: self.qbit_url@,
            qbit_user: self.qbit_user@,
            qbit_pass: self.qbit_pass@,
            qbit_category: self.qbit_category@,
            qbit_download_path: self.qbit_download_path@,
            jellyfin_url: self.jellyfin_url@,
            jellyfin_api_key: self.jellyfin_api_key@,
            preferred_groups: self.preferred_groups@,
            blocked_groups: self.blocked_groups@,
            preferred_resolution: self.preferred_resolution@,
            preferred_source: self.preferred_source@,
            cutoff_source: self.cutoff_source@,
            cutoff_resolution: self.cutoff_resolution@,
            quality_profile: self.quality_profile@,
            quality_cutoff: self.quality_cutoff@,
            finished_series_quality: self.finished_series_quality@,
            media_root: self.media_root@,
            title_language: self.title_language@,
            force_mal_fallback: self.force_mal_fallback,
            rss_enabled: self.rss_enabled,
            rss_interval_minutes: self.rss_interval_minutes,
            force_kitsu_fallback: self.force_kitsu_fallback,
            post_processing_enabled: self.post_processing_enabled,
            post_processing_mode: self.post_processing_mode@,
            auto_grab_on_add: self.auto_grab_on_add,
            prefer_subs: self.prefer_subs,
            allow_non_english: self.allow_non_english,
            sonarr_enabled: self.sonarr_enabled,
            sonarr_api_key: self.sonarr_api_key@,
            radarr_enabled: self.radarr_enabled,
            radarr_api_key: self.radarr_api_key@,
            upgrade_search_enabled: self.upgrade_search_enabled,
            custom_format_minimum_score: self.custom_format_minimum_score,
            seadex_enabled: self.seadex_enabled,
            default_custom_query_tokens: self.default_custom_query_tokens@,
            default_restrict_to_uploader: self.default_restrict_to_uploader@,
        }
    }
}

impl Dup for Config {
    fn dup(&self) -> (copy: Self) {
        Config {
            qbit_url: self.qbit_url.clone(),
            qbit_user: self.qbit_user.clone(),
            qbit_pass: self.qbit_pass.clone(),
            qbit_category: self.qbit_category.clone(),
            qbit_download_path: self.qbit_download_path.clone(),
            jellyfin_url: self.jellyfin_url.clone(),
            jellyfin_api_key: self.jellyfin_api_key.clone(),
            preferred_groups: self.preferred_groups.clone(),
            blocked_groups: self.blocked_groups.clone(),
            preferred_resolution: self.preferred_resolution.clone(),
            preferred_source: self.preferred_source.clone(),
            cutoff_source: self.cutoff_source.clone(),
            cutoff_resolution: self.cutoff_resolution.clone(),
            quality_profile: self.quality_profile.clone(),
            quality_cutoff: self.quality_cutoff.clone(),
            finished_series_quality: self.finished_series_quality.clone(),
            media_root: self.media_root.clone(),
            title_language: self.title_language.clone(),
            force_mal_fallback: self.force_mal_fallback,
            rss_enabled: self.rss_enabled,
            rss_interval_minutes: self.rss_interval_minutes,
            force_kitsu_fallback: self.force_kitsu_fallback,
            post_processing_enabled: self.post_processing_enabled,
            post_processing_mode: self.post_processing_mode.clone(),
            auto_grab_on_add: self.auto_grab_on_add,
            prefer_subs: self.prefer_subs,
            allow_non_english: self.allow_non_english,
            sonarr_enabled: self.sonarr_enabled,
            sonarr_api_key: self.sonarr_api_key.clone(),
            radarr_enabled: self.radarr_enabled,
            radarr_api_key: self.radarr_api_key.clone(),
            upgrade_search_enabled: self.upgrade_search_enabled,
            custom_format_minimum_score: self.custom_format_minimum_score,
            seadex_enabled: self.seadex_enabled,
            default_custom_query_tokens: self.default_custom_query_tokens.clone(),
            default_restrict_to_uploader: self.default_restrict_to_uploader.clone(),
        }
    }
}

impl Clone for Config {
    fn clone(&self) -> (copy: Self)
        ensures
            copy@ == self@,
    {
        self.dup()
    }
}

/// The settings as they are stored: switches and numbers as integers.
#[derive(Debug)]
pub struct ConfigRow {
    pub qbit_url: String,
    pub qbit_user: String,
    pub qbit_pass: String,
    pub qbit_category: String,
    pub qbit_download_path: String,
    pub jellyfin_url: String,
    pub jellyfin_api_key: String,
    pub preferred_groups: String,
    pub blocked_groups: String,
    pub preferred_resolution: String,
    pub preferred_source: String,
    pub cutoff_source: String,
    pub cutoff_resolution: String,
    pub quality_profile: String,
    pub quality_cutoff: String,
    pub finished_series_quality: String,
    pub media_root: String,
    pub title_language: String,
    pub force_mal_fallback: i64,
    pub rss_enabled: i64,
    pub rss_interval_minutes: i64,
    pub force_kitsu_fallback: i64,
    pub post_processing_enabled: i64,
    pub post_processing_mode: String,
    pub auto_grab_on_add: i64,
    pub prefer_subs: i64,
    pub allow_non_english: i64,
    pub sonarr_enabled: i64,
    pub sonarr_api_key: String,
    pub radarr_enabled: i64,
    pub radarr_api_key: String,
    pub upgrade_search_enabled: i64,
    pub custom_format_minimum_score: i64,
    pub seadex_enabled: i64,
    pub default_custom_query_tokens: String,
    pub default_restrict_to_uploader: String,
}

/// The contents of a [`ConfigRow`].
#[verifier::ext_equal]
pub struct ConfigRowView {
    pub qbit_url: Seq<char>,
    pub qbit_user: Seq<char>,
    pub qbit_pass: Seq<char>,
    pub qbit_category: Seq<char>,
    pub qbit_download_path: Seq<char>,
    pub jellyfin_url: Seq<char>,
    pub jellyfin_api_key: Seq<char>,
    pub preferred_groups: Seq<char>,
    pub blocked_groups: Seq<char>,
    pub preferred_resolution: Seq<char>,
    pub preferred_source: Seq<char>,
    pub cutoff_source: Seq<char>,
    pub cutoff_resolution: Seq<char>,
    pub quality_profile: Seq<char>,
    pub quality_cutoff: Seq<char>,
    pub finished_series_quality: Seq<char>,
    pub media_root: Seq<char>,
    pub title_language: Seq<char>,
    pub force_mal_fallback: i64,
    pub rss_enabled: i64,
    pub rss_interval_minutes: i64,
    pub force_kitsu_fallback: i64,
    pub post_processing_enabled: i64,
    pub post_processing_mode: Seq<char>,
    pub auto_grab_on_add: i64,
    pub prefer_subs: i64,
    pub allow_non_english: i64,
    pub sonarr_enabled: i64,
    pub sonarr_api_key: Seq<char>,
    pub radarr_enabled: i64,
    pub radarr_api_key: Seq<char>,
    pub upgrade_search_enabled: i64,
    pub custom_format_minimum_score: i64,
    pub seadex_enabled: i64,
    pub default_custom_query_tokens: Seq<char>,
    pub default_restrict_to_uploader: Seq<char>,
}

impl View for ConfigRow {
    type V = ConfigRowView;

    open spec fn view(&self) -> ConfigRowView {
        ConfigRowView {
            qbit_url: self.qbit_url@,
            qbit_user: self.qbit_user@,
            qbit_pass: self.qbit_pass@,
            qbit_category: self.qbit_category@,
            qbit_download_path: self.qbit_download_path@,
            jellyfin_url: self.jellyfin_url@,
            jellyfin_api_key: self.jellyfin_api_key@,
            preferred_groups: self.preferred_groups@,
            blocked_groups: self.blocked_groups@,
            preferred_resolution: self.preferred_resolution@,
            preferred_source: self.preferred_source@,
            cutoff_source: self.cutoff_source@,
            cutoff_resolution: self.cutoff_resolution@,
            quality_profile: self.quality_profile@,
            quality_cutoff: self.quality_cutoff@,
            finished_series_quality: self.finished_series_quality@,
            media_root: self.media_root@,
            title_language: self.title_language@,
            force_mal_fallback: self.force_mal_fallback,
            rss_enabled: self.rss_enabled,
            rss_interval_minutes: self.rss_interval_minutes,
            force_kitsu_fallback: self.force_kitsu_fallback,
            post_processing_enabled: self.post_processing_enabled,
            post_processing_mode: self.post_processing_mode@,
            auto_grab_on_add: self.auto_grab_on_add,
            prefer_subs: self.prefer_subs,
            allow_non_english: self.allow_non_english,
            sonarr_enabled: self.sonarr_enabled,
            sonarr_api_key: self.sonarr_api_key@,
            radarr_enabled: self.radarr_enabled,
            radarr_api_key: self.radarr_api_key@,
            upgrade_search_enabled: self.upgrade_search_enabled,
            custom_format_minimum_score: self.custom_format_minimum_score,
            seadex_enabled: self.seadex_enabled,
            default_custom_query_tokens: self.default_custom_query_tokens@,
            default_restrict_to_uploader: self.default_restrict_to_uploader@,
        }
    }
}

impl Dup for ConfigRow {
    fn dup(&self) -> (copy: Self) {
        ConfigRow {
            qbit_url: self.qbit_url.clone(),
            qbit_user: self.qbit_user.clone(),
            qbit_pass: self.qbit_pass.clone(),
            qbit_category: self.qbit_category.clone(),
            qbit_download_path: self.qbit_download_path.clone(),
            jellyfin_url: self.jellyfin_url.clone(),
            jellyfin_api_key: self.jellyfin_api_key.clone(),
            preferred_groups: self.preferred_groups.clone(),
            blocked_groups: self.blocked_groups.clone(),
            preferred_resolution: self.preferred_resolution.clone(),
            preferred_source: self.preferred_source.clone(),
            cutoff_source: self.cutoff_source.clone(),
            cutoff_resolution: self.cutoff_resolution.clone(),
            quality_profile: self.quality_profile.clone(),
            quality_cutoff: self.quality_cutoff.clone(),
            finished_series_quality: self.finished_series_quality.clone(),
            media_root: self.media_root.clone(),
            title_language: self.title_language.clone(),
            force_mal_fallback: self.force_mal_fallback,
            rss_enabled: self.rss_enabled,
            rss_interval_minutes: self.rss_interval_minutes,
            force_kitsu_fallback: self.force_kitsu_fallback,
            post_processing_enabled: self.post_processing_enabled,
            post_processing_mode: self.post_processing_mode.clone(),
            auto_grab_on_add: self.auto_grab_on_add,
            prefer_subs: self.prefer_subs,
            allow_non_english: self.allow_non_english,
            sonarr_enabled: self.sonarr_enabled,
            sonarr_api_key: self.sonarr_api_key.clone(),
            radarr_enabled: self.radarr_enabled,
            radarr_api_key: self.radarr_api_key.clone(),
            upgrade_search_enabled: self.upgrade_search_enabled,
            custom_format_minimum_score: self.custom_format_minimum_score,
            seadex_enabled: self.seadex_enabled,
            default_custom_query_tokens: self.default_custom_query_tokens.clone(),
            default_restrict_to_uploader: self.default_restrict_to_uploader.clone(),
        }
    }
}

impl Clone for ConfigRow {
    fn clone(&self) -> (copy: Self)
        ensures
            copy@ == self@,
    {
        self.dup()
    }
}

/// The stored settings; none until they are saved first.
#[derive(Debug)]
pub struct ConfigStore {
    pub row: Option<ConfigRow>,
    /// The download client for the built-in search.
    pub nyaa_download_client_id: Option<i64>,
}

/// The contents of a [`ConfigStore`].
#[verifier::ext_equal]
pub struct ConfigStoreView {
    pub row: Option<ConfigRowView>,
    pub nyaa_download_client_id: Option<i64>,
}

impl View for ConfigStore {
    type V = ConfigStoreView;

    open spec fn view(&self) -> ConfigStoreView {
        ConfigStoreView {
            row: match self.row {
                Some(r) => Some(r@),
                None => None,
            },
            nyaa_download_client_id: self.nyaa_download_client_id,
        }
    }
}

/// The settings of a new installation.
pub open spec fn default_config() -> ConfigView {
    ConfigView {
        qbit_url: Seq::empty(),
        qbit_user: Seq::empty(),
        qbit_pass: Seq::empty(),
        qbit_category: Seq::empty(),
        qbit_download_path: Seq::empty(),
        jellyfin_url: Seq::empty(),
        jellyfin_api_key: Seq::empty(),
        preferred_groups: Seq::empty(),
        blocked_groups: Seq::empty(),
        preferred_resolution: "1080"@,
        preferred_source: "web"@,
        cutoff_source: "bluray"@,
        cutoff_resolution: "1080"@,
        quality_profile: "web_1080"@,
        quality_cutoff: "bd_1080"@,
        finished_series_quality: "prefer_bd"@,
        media_root: Seq::empty(),
        title_language: "english"@,
        force_mal_fallback: false,
        rss_enabled: false,
        rss_interval_minutes: 5,
        force_kitsu_fallback: false,
        post_processing_enabled: false,
        post_processing_mode: "hardlink"@,
        auto_grab_on_add: true,
        prefer_subs: true,
        allow_non_english: false,
        sonarr_enabled: false,
        sonarr_api_key: Seq::empty(),
        radarr_enabled: false,
        radarr_api_key: Seq::empty(),
        upgrade_search_enabled: false,
        custom_format_minimum_score: i32::MIN,
        seadex_enabled: false,
        default_custom_query_tokens: Seq::empty(),
        default_restrict_to_uploader: Seq::empty(),
    }
}

impl Default for Config {
    fn default() -> (c: Self)
        ensures
            c@ == default_config(),
    {
        Config {
            qbit_url: String::new(),
            qbit_user: String::new(),
            qbit_pass: String::new(),
            qbit_category: String::new(),
            qbit_download_path: String::new(),
            jellyfin_url: String::new(),
            jellyfin_api_key: String::new(),
            preferred_groups: String::new(),
            blocked_groups: String::new(),
            preferred_resolution: own("1080"),
            preferred_source: own("web"),
            cutoff_source: own("bluray"),
            cutoff_resolution: own("1080"),
            quality_profile: own("web_1080"),
            quality_cutoff: own("bd_1080"),
            finished_series_quality: own("prefer_bd"),
            media_root: String::new(),
            title_language: own("english"),
            force_mal_fallback: false,
            rss_enabled: false,
            rss_interval_minutes: 5,
            force_kitsu_fallback: false,
            post_processing_enabled: false,
            post_processing_mode: own("hardlink"),
            auto_grab_on_add: true,
            prefer_subs: true,
            allow_non_english: false,
            sonarr_enabled: false,
            sonarr_api_key: String::new(),
            radarr_enabled: false,
            radarr_api_key: String::new(),
            upgrade_search_enabled: false,
            custom_format_minimum_score: i32::MIN,
            seadex_enabled: false,
            default_custom_query_tokens: String::new(),
            default_restrict_to_uploader: String::new(),
        }
    }
}

/// A switch as it is stored.
pub open spec fn flag(on: bool) -> i64 {
    if on {
        1
    } else {
        0
    }
}

/// The settings as they are stored.
pub open spec fn stored_config(c: ConfigView) -> ConfigRowView {
    ConfigRowView {
        qbit_url: c.qbit_url,
        qbit_user: c.qbit_user,
        qbit_pass: c.qbit_pass,
        qbit_category: c.qbit_category,
        qbit_download_path: c.qbit_download_path,
        jellyfin_url: c.jellyfin_url,
        jellyfin_api_key: c.jellyfin_api_key,
        preferred_groups: c.preferred_groups,
        blocked_groups: c.blocked_groups,
        preferred_resolution: c.preferred_resolution,
        preferred_source: c.preferred_source,
        cutoff_source: c.cutoff_source,
        cutoff_resolution: c.cutoff_resolution,
        quality_profile: c.quality_profile,
        quality_cutoff: c.quality_cutoff,
        finished_series_quality: c.finished_series_quality,
        media_root: c.media_root,
        title_language: c.title_language,
        force_mal_fallback: flag(c.force_mal_fallback),
        rss_enabled: flag(c.rss_enabled),
        rss_interval_minutes: c.rss_interval_minutes as i64,
        force_kitsu_fallback: flag(c.force_kitsu_fallback),
        post_processing_enabled: flag(c.post_processing_enabled),
        post_processing_mode: c.post_processing_mode,
        auto_grab_on_add: flag(c.auto_grab_on_add),
        prefer_subs: flag(c.prefer_subs),
        allow_non_english: flag(c.allow_non_english),
        sonarr_enabled: flag(c.sonarr_enabled),
        sonarr_api_key: c.sonarr_api_key,
        radarr_enabled: flag(c.radarr_enabled),
        radarr_api_key: c.radarr_api_key,
        upgrade_search_enabled: flag(c.upgrade_search_enabled),
        custom_format_minimum_score: c.custom_format_minimum_score as i64,
        seadex_enabled: flag(c.seadex_enabled),
        default_custom_query_tokens: c.default_custom_query_tokens,
        default_restrict_to_uploader: c.default_restrict_to_uploader,
    }
}

/// Stored settings as the program uses them: every number but zero switches
/// on.
pub open spec fn read_config(r: ConfigRowView) -> ConfigView {
    ConfigView {
        qbit_url: r.qbit_url,
        qbit_user: r.qbit_user,
        qbit_pass: r.qbit_pass,
        qbit_category: r.qbit_category,
        qbit_download_path: r.qbit_download_path,
        jellyfin_url: r.jellyfin_url,
        jellyfin_api_key: r.jellyfin_api_key,
        preferred_groups: r.preferred_groups,
        blocked_groups: r.blocked_groups,
        preferred_resolution: r.preferred_resolution,
        preferred_source: r.preferred_source,
        cutoff_source: r.cutoff_source,
        cutoff_resolution: r.cutoff_resolution,
        quality_profile: r.quality_profile,
        quality_cutoff: r.quality_cutoff,
        finished_series_quality: r.finished_series_quality,
        media_root: r.media_root,
        title_language: r.title_language,
        force_mal_fallback: r.force_mal_fallback != 0,
        rss_enabled: r.rss_enabled != 0,
        rss_interval_minutes: r.rss_interval_minutes as i32,
        force_kitsu_fallback: r.force_kitsu_fallback != 0,
        post_processing_enabled: r.post_processing_enabled != 0,
        post_processing_mode: r.post_processing_mode,
        auto_grab_on_add: r.auto_grab_on_add != 0,
        prefer_subs: r.prefer_subs != 0,
        allow_non_english: r.allow_non_english != 0,
        sonarr_enabled: r.sonarr_enabled != 0,
        sonarr_api_key: r.sonarr_api_key,
        radarr_enabled: r.radarr_enabled != 0,
        radarr_api_key: r.radarr_api_key,
        upgrade_search_enabled: r.upgrade_search_enabled != 0,
        custom_format_minimum_score: r.custom_format_minimum_score as i32,
        seadex_enabled: r.seadex_enabled != 0,
        default_custom_query_tokens: r.default_custom_query_tokens,
        default_restrict_to_uploader: r.default_restrict_to_uploader,
    }
}

fn to_flag(on: bool) -> (r: i64)
    ensures
        r == flag(on),
{
    if on {
        1
    } else {
        0
    }
}

/// The settings; none until they are saved first.
pub fn get_config(db: &ConfigStore) -> (c: Option<Config>)
    ensures
        match c {
            Some(c) => db@.row is Some && c@ == read_config(db@.row->0),
            None => db@.row is None,
        },
{
    match &db.row {
        Some(r) => Some(
            Config {
                qbit_url: r.qbit_url.clone(),
                qbit_user: r.qbit_user.clone(),
                qbit_pass: r.qbit_pass.clone(),
                qbit_category: r.qbit_category.clone(),
                qbit_download_path: r.qbit_download_path.clone(),
                jellyfin_url: r.jellyfin_url.clone(),
                jellyfin_api_key: r.jellyfin_api_key.clone(),
                preferred_groups: r.preferred_groups.clone(),
                blocked_groups: r.blocked_groups.clone(),
                preferred_resolution: r.preferred_resolution.clone(),
                preferred_source: r.preferred_source.clone(),
                cutoff_source: r.cutoff_source.clone(),
                cutoff_resolution: r.cutoff_resolution.clone(),
                quality_profile: r.quality_profile.clone(),
                quality_cutoff: r.quality_cutoff.clone(),
                finished_series_quality: r.finished_series_quality.clone(),
                media_root: r.media_root.clone(),
                title_language: r.title_language.clone(),
                force_mal_fallback: r.force_mal_fallback != 0,
                rss_enabled: r.rss_enabled != 0,
                rss_interval_minutes: #[verifier::truncate]
                (r.rss_interval_minutes as i32),
                force_kitsu_fallback: r.force_kitsu_fallback != 0,
                post_processing_enabled: r.post_processing_enabled != 0,
                post_processing_mode: r.post_processing_mode.clone(),
                auto_grab_on_add: r.auto_grab_on_add != 0,
                prefer_subs: r.prefer_subs != 0,
                allow_non_english: r.allow_non_english != 0,
                sonarr_enabled: r.sonarr_enabled != 0,
                sonarr_api_key: r.sonarr_api_key.clone(),
                radarr_enabled: r.radarr_enabled != 0,
                radarr_api_key: r.radarr_api_key.clone(),
                upgrade_search_enabled: r.upgrade_search_enabled != 0,
                custom_format_minimum_score: #[verifier::truncate]
                (r.custom_format_minimum_score as i32),
                seadex_enabled: r.seadex_enabled != 0,
                default_custom_query_tokens: r.default_custom_query_tokens.clone(),
                default_restrict_to_uploader: r.default_restrict_to_uploader.clone(),
            },
        ),
        None => None,
    }
}

/// Saves the settings in place of those that were there.
pub fn save_config(db: &mut ConfigStore, config: &Config)
    ensures
        final(db)@ == (ConfigStoreView { row: Some(stored_config(config@)), ..old(db)@ }),
{
    db.row = Some(
        ConfigRow {
            qbit_url: config.qbit_url.clone(),
            qbit_user: config.qbit_user.clone(),
            qbit_pass: config.qbit_pass.clone(),
            qbit_category: config.qbit_category.clone(),
            qbit_download_path: config.qbit_download_path.clone(),
            jellyfin_url: config.jellyfin_url.clone(),
            jellyfin_api_key: config.jellyfin_api_key.clone(),
            preferred_groups: config.preferred_groups.clone(),
            blocked_groups: config.blocked_groups.clone(),
            preferred_resolution: config.preferred_resolution.clone(),
            preferred_source: config.preferred_source.clone(),
            cutoff_source: config.cutoff_source.clone(),
            cutoff_resolution: config.cutoff_resolution.clone(),
            quality_profile: config.quality_profile.clone(),
            quality_cutoff: config.quality_cutoff.clone(),
            finished_series_quality: config.finished_series_quality.clone(),
            media_root: config.media_root.clone(),
            title_language: config.title_language.clone(),
            force_mal_fallback: to_flag(config.force_mal_fallback),
            rss_enabled: to_flag(config.rss_enabled),
            rss_interval_minutes: config.rss_interval_minutes as i64,
            force_kitsu_fallback: to_flag(config.force_kitsu_fallback),
            post_processing_enabled: to_flag(config.post_processing_enabled),
            post_processing_mode: config.post_processing_mode.clone(),
            auto_grab_on_add: to_flag(config.auto_grab_on_add),
            prefer_subs: to_flag(config.prefer_subs),
            allow_non_english: to_flag(config.allow_non_english),
            sonarr_enabled: to_flag(config.sonarr_enabled),
            sonarr_api_key: config.sonarr_api_key.clone(),
            radarr_enabled: to_flag(config.radarr_enabled),
            radarr_api_key: config.radarr_api_key.clone(),
            upgrade_search_enabled: to_flag(config.upgrade_search_enabled),
            custom_format_minimum_score: config.custom_format_minimum_score as i64,
            seadex_enabled: to_flag(config.seadex_enabled),
            default_custom_query_tokens: config.default_custom_query_tokens.clone(),
            default_restrict_to_uploader: config.default_restrict_to_uploader.clone(),
        },
    );
}

/// Settings that were saved are read as they were.
pub proof fn saved_settings_are_read_as_they_were(c: ConfigView)
    ensures
        read_config(stored_config(c)) == c,
{
}

/// The settings that the import wizard shows.
pub open spec fn context_of(c: Option<ConfigView>) -> RenderContextView {
    match c {
        Some(c) => RenderContextView {
            media_root: trimmed(c.media_root),
            title_pref: c.title_language,
        },
        None => RenderContextView { media_root: Seq::empty(), title_pref: "english"@ },
    }
}

/// The settings that the import wizard shows: the media root without the
/// space around it, and the preferred language, English until one is saved.
pub fn render_context(config: &Option<Config>) -> (ctx: RenderContext)
    ensures
        ctx@ == context_of(match *config {
            Some(c) => Some(c@),
            None => None,
        }),
{
    match config {
        Some(c) => RenderContext {
            media_root: trim(&c.media_root),
            title_pref: c.title_language.clone(),
        },
        None => RenderContext { media_root: String::new(), title_pref: own("english") },
    }
}

/// Each setting is stored in the column of its own name, and read from it.
pub proof fn settings_are_stored_under_their_names(c: ConfigView)
    ensures
        ({
            let r = stored_config(c);
            &&& r.qbit_url == c.qbit_url && r.qbit_user == c.qbit_user && r.qbit_pass
                == c.qbit_pass && r.qbit_category == c.qbit_category && r.qbit_download_path
                == c.qbit_download_path
            &&& r.jellyfin_url == c.jellyfin_url && r.jellyfin_api_key == c.jellyfin_api_key
            &&& r.preferred_groups == c.preferred_groups && r.blocked_groups == c.blocked_groups
            &&& r.preferred_resolution == c.preferred_resolution && r.preferred_source
                == c.preferred_source && r.cutoff_source == c.cutoff_source && r.cutoff_resolution
                == c.cutoff_resolution
            &&& r.quality_profile == c.quality_profile && r.quality_cutoff == c.quality_cutoff
                && r.finished_series_quality == c.finished_series_quality
            &&& r.media_root == c.media_root && r.title_language == c.title_language
                && r.post_processing_mode == c.post_processing_mode
            &&& r.sonarr_api_key == c.sonarr_api_key && r.radarr_api_key == c.radarr_api_key
            &&& r.default_custom_query_tokens == c.default_custom_query_tokens
                && r.default_restrict_to_uploader == c.default_restrict_to_uploader
            &&& r.rss_interval_minutes == c.rss_interval_minutes && r.custom_format_minimum_score
                == c.custom_format_minimum_score
            &&& (r.force_mal_fallback != 0) == c.force_mal_fallback && (r.rss_enabled != 0)
                == c.rss_enabled && (r.force_kitsu_fallback != 0) == c.force_kitsu_fallback
            &&& (r.post_processing_enabled != 0) == c.post_processing_enabled && (
            r.auto_grab_on_add != 0) == c.auto_grab_on_add && (r.prefer_subs != 0)
                == c.prefer_subs && (r.allow_non_english != 0) == c.allow_non_english
            &&& (r.sonarr_enabled != 0) == c.sonarr_enabled && (r.radarr_enabled != 0)
                == c.radarr_enabled && (r.upgrade_search_enabled != 0)
                == c.upgrade_search_enabled && (r.seadex_enabled != 0) == c.seadex_enabled
        }),
{
}

/// Each setting is read from the column of its own name; a number other than
/// nought stands for yes.
pub proof fn settings_are_read_from_their_names(r: ConfigRowView)
    ensures
        ({
            let c = read_config(r);
            &&& c.qbit_url == r.qbit_url && c.qbit_user == r.qbit_user && c.qbit_pass
                == r.qbit_pass && c.qbit_category == r.qbit_category && c.qbit_download_path
                == r.qbit_download_path
            &&& c.jellyfin_url == r.jellyfin_url && c.jellyfin_api_key == r.jellyfin_api_key
            &&& c.preferred_groups == r.preferred_groups && c.blocked_groups == r.blocked_groups
            &&& c.preferred_resolution == r.preferred_resolution && c.preferred_source
                == r.preferred_source && c.cutoff_source == r.cutoff_source && c.cutoff_resolution
                == r.cutoff_resolution
            &&& c.quality_profile == r.quality_profile && c.quality_cutoff == r.quality_cutoff
                && c.finished_series_quality == r.finished_series_quality
            &&& c.media_root == r.media_root && c.title_language == r.title_language
                && c.post_processing_mode == r.post_processing_mode
            &&& c.sonarr_api_key == r.sonarr_api_key && c.radarr_api_key == r.radarr_api_key
            &&& c.default_custom_query_tokens == r.default_custom_query_tokens
                && c.default_restrict_to_uploader == r.default_restrict_to_uploader
            &&& c.force_mal_fallback <==> r.force_mal_fallback != 0
            &&& c.rss_enabled <==> r.rss_enabled != 0
            &&& c.force_kitsu_fallback <==> r.force_kitsu_fallback != 0
            &&& c.post_processing_enabled <==> r.post_processing_enabled != 0
            &&& c.auto_grab_on_add <==> r.auto_grab_on_add != 0
            &&& c.prefer_subs <==> r.prefer_subs != 0
            &&& c.allow_non_english <==> r.allow_non_english != 0
            &&& c.sonarr_enabled <==> r.sonarr_enabled != 0
            &&& c.radarr_enabled <==> r.radarr_enabled != 0
            &&& c.upgrade_search_enabled <==> r.upgrade_search_enabled != 0
            &&& c.seadex_enabled <==> r.seadex_enabled != 0
            &&& i32::MIN <= r.rss_interval_minutes <= i32::MAX ==> c.rss_interval_minutes
                == r.rss_interval_minutes
            &&& i32::MIN <= r.custom_format_minimum_score <= i32::MAX
                ==> c.custom_format_minimum_score == r.custom_format_minimum_score
        }),
{
}

/// Pages are drawn with the media root without white space round it and with
/// the reader's language; with English titles before anything is set.
pub proof fn pages_are_drawn_with_the_settings(c: ConfigView)
    ensures
        context_of(Some(c)).media_root == trimmed(c.media_root),
        context_of(Some(c)).title_pref == c.title_language,
        context_of(None).media_root.len() == 0,
        context_of(None).title_pref == "english"@,
{
}

/// Before anything is set, episodes are looked for as streams at the usual
/// resolution until a disc is there, nothing runs by itself but the search for
/// what is added, and every text that has no usual value is empty.
pub proof fn the_settings_before_anything_is_set()
    ensures
        ({
            let c = default_config();
            &&& c.preferred_resolution == "1080"@ && c.preferred_source == "web"@
                && c.cutoff_source == "bluray"@ && c.cutoff_resolution == "1080"@
            &&& c.quality_profile == "web_1080"@ && c.quality_cutoff == "bd_1080"@
                && c.finished_series_quality == "prefer_bd"@
            &&& c.title_language == "english"@ && c.post_processing_mode == "hardlink"@
            &&& c.rss_interval_minutes == 5 && c.custom_format_minimum_score == i32::MIN
            &&& c.auto_grab_on_add && c.prefer_subs
            &&& !c.force_mal_fallback && !c.rss_enabled && !c.force_kitsu_fallback
                && !c.post_processing_enabled && !c.allow_non_english && !c.sonarr_enabled
                && !c.radarr_enabled && !c.upgrade_search_enabled && !c.seadex_enabled
            &&& c.qbit_url.len() == 0 && c.qbit_user.len() == 0 && c.qbit_pass.len() == 0
                && c.qbit_category.len() == 0 && c.qbit_download_path.len() == 0
            &&& c.jellyfin_url.len() == 0 && c.jellyfin_api_key.len() == 0 && c.media_root.len()
                == 0
            &&& c.preferred_groups.len() == 0 && c.blocked_groups.len() == 0
                && c.sonarr_api_key.len() == 0 && c.radarr_api_key.len() == 0
            &&& c.default_custom_query_tokens.len() == 0 && c.default_restrict_to_uploader.len()
                == 0
        }),
{
}

} // verus!
