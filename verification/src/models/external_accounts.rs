//! The linked account of a list service.
use crate::models::series::{SeriesRow, SeriesRowView};
use crate::models::StoreError;
use crate::table::{
    any_where, check_numbered, delete_where, dup_all, dup_list, find_first, first_where, head,
    numbered, optional_view, order_by, ordered, position, update_where, updated, views, without,
    Dup,
};
use crate::text::{join2, own, same};
use vstd::prelude::*;
use vstd::utf8::{decode_utf8, encode_utf8, valid_utf8};

verus! {

/// AniList.
pub const PROVIDER_ANILIST: &'static str = "anilist";

/// MyAnimeList.
pub const PROVIDER_MAL: &'static str = "mal";

/// An account as it is stored: its tokens are sealed.
#[derive(Debug)]
pub struct ExternalAccountRaw {
    pub id: i64,
    pub provider: String,
    pub provider_user_id: String,
    pub username: String,
    pub access_token_encrypted: Vec<u8>,
    pub refresh_token_encrypted: Vec<u8>,
    pub access_token_expires_at: Option<i64>,
    pub score_format: String,
    pub list_last_synced_at: Option<i64>,
    pub list_full_resync_at: Option<i64>,
    pub linked_at: i64,
    pub import_watching: bool,
    pub import_planning: bool,
    pub import_paused: bool,
    pub import_dropped: bool,
    pub import_completed: bool,
    pub skip_already_watched: bool,
    /// How many entries of the last run could not be matched.
    pub last_sync_deferred_count: i64,
    /// Whether the service turned the last run away.
    pub last_sync_auth_failed: bool,
}

/// The contents of a [`ExternalAccountRaw`].
#[verifier::ext_equal]
pub struct ExternalAccountRawView {
    pub id: i64,
    pub provider: Seq<char>,
    pub provider_user_id: Seq<char>,
    pub username: Seq<char>,
    pub access_token_encrypted: Seq<u8>,
    pub refresh_token_encrypted: Seq<u8>,
    pub access_token_expires_at: Option<i64>,
    pub score_format: Seq<char>,
    pub list_last_synced_at: Option<i64>,
    pub list_full_resync_at: Option<i64>,
    pub linked_at: i64,
    pub import_watching: bool,
    pub import_planning: bool,
    pub import_paused: bool,
    pub import_dropped: bool,
    pub import_completed: bool,
    pub skip_already_watched: bool,
    pub last_sync_deferred_count: i64,
    pub last_sync_auth_failed: bool,
}

impl View for ExternalAccountRaw {
    type V = ExternalAccountRawView;

    open spec fn view(&self) -> ExternalAccountRawView {
        ExternalAccountRawView {
            id: self.id,
            provider: self.provider@,
            provider_user_id: self.provider_user_id@,
            username: self.username@,
            access_token_encrypted: self.access_token_encrypted@,
            refresh_token_encrypted: self.refresh_token_encrypted@,
            access_token_expires_at: self.access_token_expires_at,
            score_format: self.score_format@,
            list_last_synced_at: self.list_last_synced_at,
            list_full_resync_at: self.list_full_resync_at,
            linked_at: self.linked_at,
            import_watching: self.import_watching,
            import_planning: self.import_planning,
            import_paused: self.import_paused,
            import_dropped: self.import_dropped,
            import_completed: self.import_completed,
            skip_already_watched: self.skip_already_watched,
            last_sync_deferred_count: self.last_sync_deferred_count,
            last_sync_auth_failed: self.last_sync_auth_failed,
        }
    }
}

impl Dup for ExternalAccountRaw {
    fn dup(&self) -> (copy: Self) {
        ExternalAccountRaw {
            id: self.id,
            provider: self.provider.clone(),
            provider_user_id: self.provider_user_id.clone(),
            username: self.username.clone(),
            access_token_encrypted: dup_list(&self.access_token_encrypted),
            refresh_token_encrypted: dup_list(&self.refresh_token_encrypted),
            access_token_expires_at: self.access_token_expires_at,
            score_format: self.score_format.clone(),
            list_last_synced_at: self.list_last_synced_at,
            list_full_resync_at: self.list_full_resync_at,
            linked_at: self.linked_at,
            import_watching: self.import_watching,
            import_planning: self.import_planning,
            import_paused: self.import_paused,
            import_dropped: self.import_dropped,
            import_completed: self.import_completed,
            skip_already_watched: self.skip_already_watched,
            last_sync_deferred_count: self.last_sync_deferred_count,
            last_sync_auth_failed: self.last_sync_auth_failed,
        }
    }
}

impl Clone for ExternalAccountRaw {
    fn clone(&self) -> (copy: Self)
        ensures
            copy@ == self@,
    {
        self.dup()
    }
}

/// An account with its tokens as they are sent.
pub struct ExternalAccount {
    pub id: i64,
    pub provider: String,
    pub provider_user_id: String,
    pub username: String,
    pub access_token: String,
    /// Empty where the service has none.
    pub refresh_token: String,
    pub access_token_expires_at: Option<i64>,
    pub score_format: String,
    pub list_last_synced_at: Option<i64>,
    pub list_full_resync_at: Option<i64>,
    pub linked_at: i64,
    pub import_watching: bool,
    pub import_planning: bool,
    pub import_paused: bool,
    pub import_dropped: bool,
    pub import_completed: bool,
    pub skip_already_watched: bool,
    pub last_sync_deferred_count: i64,
    pub last_sync_auth_failed: bool,
}

/// The contents of a [`ExternalAccount`].
#[verifier::ext_equal]
pub struct ExternalAccountView {
    pub id: i64,
    pub provider: Seq<char>,
    pub provider_user_id: Seq<char>,
    pub username: Seq<char>,
    pub access_token: Seq<char>,
    pub refresh_token: Seq<char>,
    pub access_token_expires_at: Option<i64>,
    pub score_format: Seq<char>,
    pub list_last_synced_at: Option<i64>,
    pub list_full_resync_at: Option<i64>,
    pub linked_at: i64,
    pub import_watching: bool,
    pub import_planning: bool,
    pub import_paused: bool,
    pub import_dropped: bool,
    pub import_completed: bool,
    pub skip_already_watched: bool,
    pub last_sync_deferred_count: i64,
    pub last_sync_auth_failed: bool,
}

impl View for ExternalAccount {
    type V = ExternalAccountView;

    open spec fn view(&self) -> ExternalAccountView {
        ExternalAccountView {
            id: self.id,
            provider: self.provider@,
            provider_user_id: self.provider_user_id@,
            username: self.username@,
            access_token: self.access_token@,
            refresh_token: self.refresh_token@,
            access_token_expires_at: self.access_token_expires_at,
            score_format: self.score_format@,
            list_last_synced_at: self.list_last_synced_at,
            list_full_resync_at: self.list_full_resync_at,
            linked_at: self.linked_at,
            import_watching: self.import_watching,
            import_planning: self.import_planning,
            import_paused: self.import_paused,
            import_dropped: self.import_dropped,
            import_completed: self.import_completed,
            skip_already_watched: self.skip_already_watched,
            last_sync_deferred_count: self.last_sync_deferred_count,
            last_sync_auth_failed: self.last_sync_auth_failed,
        }
    }
}

impl Dup for ExternalAccount {
    fn dup(&self) -> (copy: Self) {
        ExternalAccount {
            id: self.id,
            provider: self.provider.clone(),
            provider_user_id: self.provider_user_id.clone(),
            username: self.username.clone(),
            access_token: self.access_token.clone(),
            refresh_token: self.refresh_token.clone(),
            access_token_expires_at: self.access_token_expires_at,
            score_format: self.score_format.clone(),
            list_last_synced_at: self.list_last_synced_at,
            list_full_resync_at: self.list_full_resync_at,
            linked_at: self.linked_at,
            import_watching: self.import_watching,
            import_planning: self.import_planning,
            import_paused: self.import_paused,
            import_dropped: self.import_dropped,
            import_completed: self.import_completed,
            skip_already_watched: self.skip_already_watched,
            last_sync_deferred_count: self.last_sync_deferred_count,
            last_sync_auth_failed: self.last_sync_auth_failed,
        }
    }
}

impl Clone for ExternalAccount {
    fn clone(&self) -> (copy: Self)
        ensures
            copy@ == self@,
    {
        self.dup()
    }
}

/// An account to be linked.
pub struct LinkRequest {
    pub provider: String,
    pub provider_user_id: String,
    pub username: String,
    pub access_token: String,
    pub refresh_token: String,
    pub access_token_expires_at: Option<i64>,
    pub score_format: String,
}

/// The contents of a [`LinkRequest`].
#[verifier::ext_equal]
pub struct LinkRequestView {
    pub provider: Seq<char>,
    pub provider_user_id: Seq<char>,
    pub username: Seq<char>,
    pub access_token: Seq<char>,
    pub refresh_token: Seq<char>,
    pub access_token_expires_at: Option<i64>,
    pub score_format: Seq<char>,
}

impl View for LinkRequest {
    type V = LinkRequestView;

    open spec fn view(&self) -> LinkRequestView {
        LinkRequestView {
            provider: self.provider@,
            provider_user_id: self.provider_user_id@,
            username: self.username@,
            access_token: self.access_token@,
            refresh_token: self.refresh_token@,
            access_token_expires_at: self.access_token_expires_at,
            score_format: self.score_format@,
        }
    }
}

impl Dup for LinkRequest {
    fn dup(&self) -> (copy: Self) {
        LinkRequest {
            provider: self.provider.clone(),
            provider_user_id: self.provider_user_id.clone(),
            username: self.username.clone(),
            access_token: self.access_token.clone(),
            refresh_token: self.refresh_token.clone(),
            access_token_expires_at: self.access_token_expires_at,
            score_format: self.score_format.clone(),
        }
    }
}

impl Clone for LinkRequest {
    fn clone(&self) -> (copy: Self)
        ensures
            copy@ == self@,
    {
        self.dup()
    }
}

/// That a series is in a list of the user's own at a service.
#[derive(Debug)]
pub struct CustomListRow {
    pub series_id: i64,
    pub provider: String,
    pub list_name: String,
}

/// The contents of a [`CustomListRow`].
#[verifier::ext_equal]
pub struct CustomListRowView {
    pub series_id: i64,
    pub provider: Seq<char>,
    pub list_name: Seq<char>,
}

impl View for CustomListRow {
    type V = CustomListRowView;

    open spec fn view(&self) -> CustomListRowView {
        CustomListRowView {
            series_id: self.series_id,
            provider: self.provider@,
            list_name: self.list_name@,
        }
    }
}

impl Dup for CustomListRow {
    fn dup(&self) -> (copy: Self) {
        CustomListRow {
            series_id: self.series_id,
            provider: self.provider.clone(),
            list_name: self.list_name.clone(),
        }
    }
}

impl Clone for CustomListRow {
    fn clone(&self) -> (copy: Self)
        ensures
            copy@ == self@,
    {
        self.dup()
    }
}

/// Which lists are taken over.
#[derive(Debug, Clone, Copy, PartialEq, Eq, Structural)]
pub struct ImportPreferences {
    pub import_watching: bool,
    pub import_planning: bool,
    pub import_paused: bool,
    pub import_dropped: bool,
    pub import_completed: bool,
    pub skip_already_watched: bool,
}

/// The accounts: at most one is linked at a time.
#[derive(Debug)]
pub struct AccountStore {
    pub accounts: Vec<ExternalAccountRaw>,
    /// The largest id given out so far.
    pub last_id: i64,
}

/// The contents of an [`AccountStore`].
#[verifier::ext_equal]
pub struct AccountStoreView {
    pub accounts: Seq<ExternalAccountRawView>,
    pub last_id: i64,
}

impl View for AccountStore {
    type V = AccountStoreView;

    open spec fn view(&self) -> AccountStoreView {
        AccountStoreView { accounts: views(self.accounts@), last_id: self.last_id }
    }
}

/// What stands in place of a token wherever an account is shown.
pub open spec fn hidden() -> Seq<char> {
    "<redacted>"@
}

impl ExternalAccountView {
    pub open spec fn redacted(self) -> ExternalAccountView {
        ExternalAccountView { access_token: hidden(), refresh_token: hidden(), ..self }
    }
}

impl LinkRequestView {
    pub open spec fn redacted(self) -> LinkRequestView {
        LinkRequestView { access_token: hidden(), refresh_token: hidden(), ..self }
    }
}

impl ExternalAccount {
    /// The account as it may be shown: without its tokens.
    pub fn redacted(&self) -> (shown: ExternalAccount)
        ensures
            shown@ == self@.redacted(),
    {
        let copy = self.dup();
        ExternalAccount {
            access_token: own("<redacted>"),
            refresh_token: own("<redacted>"),
            ..copy
        }
    }
}

impl LinkRequest {
    /// The request as it may be shown: without its tokens.
    pub fn redacted(&self) -> (shown: LinkRequest)
        ensures
            shown@ == self@.redacted(),
    {
        let copy = self.dup();
        LinkRequest { access_token: own("<redacted>"), refresh_token: own("<redacted>"), ..copy }
    }
}

pub open spec fn account_id() -> spec_fn(ExternalAccountRawView) -> i64 {
    |a: ExternalAccountRawView| a.id
}

pub open spec fn is_account(id: i64) -> spec_fn(ExternalAccountRawView) -> bool {
    |a: ExternalAccountRawView| a.id == id
}

pub open spec fn same_user(provider: Seq<char>, user: Seq<char>) -> spec_fn(
    ExternalAccountRawView,
) -> bool {
    |a: ExternalAccountRawView| a.provider == provider && a.provider_user_id == user
}

pub open spec fn last_linked_first() -> spec_fn(
    ExternalAccountRawView,
    ExternalAccountRawView,
) -> bool {
    |a: ExternalAccountRawView, b: ExternalAccountRawView| a.linked_at >= b.linked_at
}

impl AccountStoreView {
    /// One account is linked at a time, and its id was given out.
    pub open spec fn wf(self) -> bool {
        numbered(self.accounts, account_id(), self.last_id) && self.accounts.len() <= 1
    }

    /// The linked account: the last one, for a list that holds more.
    pub open spec fn current(self) -> Option<ExternalAccountRawView> {
        head(ordered(self.accounts, last_linked_first()))
    }
}

/// The text of the error that `String::from_utf8` gives for bytes that are not
/// UTF-8.
pub uninterp spec fn utf8_error(bytes: Seq<u8>) -> Seq<char>;

/// `String::from_utf8`: the text that the bytes encode when they are UTF-8,
/// and otherwise an error whose text depends on the bytes alone.
#[verifier::external_body]
fn text_of_bytes(bytes: Vec<u8>) -> (r: Result<String, String>)
    ensures
        r is Ok <==> valid_utf8(bytes@),
        r matches Ok(text) ==> text@ == decode_utf8(bytes@),
        r matches Err(e) ==> e@ == utf8_error(bytes@),
{
    String::from_utf8(bytes).map_err(|e| e.to_string())
}

/// The contents of what came of opening a token, or of making something of it.
pub open spec fn opened(r: Result<Vec<u8>, String>) -> Result<Seq<u8>, Seq<char>> {
    match r {
        Ok(bytes) => Ok(bytes@),
        Err(e) => Err(e@),
    }
}

/// The account with its tokens opened.
pub open spec fn plaintext(
    raw: ExternalAccountRawView,
    access: Result<Seq<u8>, Seq<char>>,
    refresh: Result<Seq<u8>, Seq<char>>,
) -> Result<ExternalAccountView, Seq<char>> {
    let refresh_bytes = if raw.refresh_token_encrypted.len() == 0 {
        Ok(Seq::<u8>::empty())
    } else {
        refresh
    };
    match access {
        Err(e) => Err("decrypt access token: "@ + e),
        Ok(a) => match refresh_bytes {
            Err(e) => Err("decrypt refresh token: "@ + e),
            Ok(r) => if !valid_utf8(a) {
                Err("access token is not UTF-8: "@ + utf8_error(a))
            } else if !valid_utf8(r) {
                Err("refresh token is not UTF-8: "@ + utf8_error(r))
            } else {
                Ok(
                    ExternalAccountView {
                        id: raw.id,
                        provider: raw.provider,
                        provider_user_id: raw.provider_user_id,
                        username: raw.username,
                        access_token: decode_utf8(a),
                        refresh_token: decode_utf8(r),
                        access_token_expires_at: raw.access_token_expires_at,
                        score_format: raw.score_format,
                        list_last_synced_at: raw.list_last_synced_at,
                        list_full_resync_at: raw.list_full_resync_at,
                        linked_at: raw.linked_at,
                        import_watching: raw.import_watching,
                        import_planning: raw.import_planning,
                        import_paused: raw.import_paused,
                        import_dropped: raw.import_dropped,
                        import_completed: raw.import_completed,
                        skip_already_watched: raw.skip_already_watched,
                        last_sync_deferred_count: raw.last_sync_deferred_count,
                        last_sync_auth_failed: raw.last_sync_auth_failed,
                    },
                )
            },
        },
    }
}

pub open spec fn account_result(r: Result<ExternalAccount, String>) -> Result<
    ExternalAccountView,
    Seq<char>,
> {
    match r {
        Ok(a) => Ok(a@),
        Err(e) => Err(e@),
    }
}

impl ExternalAccountRaw {
    /// The account with its tokens, once they were opened. An empty sealed
    /// refresh token stands for an empty one.
    pub fn into_plaintext(
        self,
        access: Result<Vec<u8>, String>,
        refresh: Result<Vec<u8>, String>,
    ) -> (r: Result<ExternalAccount, String>)
        ensures
            account_result(r) == plaintext(self@, opened(access), opened(refresh)),
    {
        let access_bytes = match access {
            Ok(b) => b,
            Err(e) => {
                return Err(join2("decrypt access token: ", &e));
            },
        };
        let refresh_bytes: Vec<u8> = if self.refresh_token_encrypted.len() == 0 {
            Vec::new()
        } else {
            match refresh {
                Ok(b) => b,
                Err(e) => {
                    return Err(join2("decrypt refresh token: ", &e));
                },
            }
        };
        let access_token = match text_of_bytes(access_bytes) {
            Ok(t) => t,
            Err(e) => {
                return Err(join2("access token is not UTF-8: ", &e));
            },
        };
        let refresh_token = match text_of_bytes(refresh_bytes) {
            Ok(t) => t,
            Err(e) => {
                return Err(join2("refresh token is not UTF-8: ", &e));
            },
        };
        Ok(
            ExternalAccount {
                id: self.id,
                provider: self.provider,
                provider_user_id: self.provider_user_id,
                username: self.username,
                access_token,
                refresh_token,
                access_token_expires_at: self.access_token_expires_at,
                score_format: self.score_format,
                list_last_synced_at: self.list_last_synced_at,
                list_full_resync_at: self.list_full_resync_at,
                linked_at: self.linked_at,
                import_watching: self.import_watching,
                import_planning: self.import_planning,
                import_paused: self.import_paused,
                import_dropped: self.import_dropped,
                import_completed: self.import_completed,
                skip_already_watched: self.skip_already_watched,
                last_sync_deferred_count: self.last_sync_deferred_count,
                last_sync_auth_failed: self.last_sync_auth_failed,
            },
        )
    }
}

/// The linked account, with its tokens sealed.
pub fn current_raw(db: &AccountStore) -> (r: Option<ExternalAccountRaw>)
    ensures
        optional_view(r) == db@.current(),
{
    let before = |a: &ExternalAccountRaw, b: &ExternalAccountRaw| -> (r: bool)
        ensures r == last_linked_first()(a@, b@)
        { a.linked_at >= b.linked_at };
    let rows = order_by(dup_all(&db.accounts), before, Ghost(last_linked_first()));
    assert(views(rows@).len() == rows.len());
    if rows.len() == 0 {
        return None;
    }
    assert(views(rows@)[0] == rows[0]@);
    Some(rows[0].dup())
}

/// The linked account, given what came of opening its tokens. A token that
/// cannot be opened is an error: the account has to be linked again.
pub fn get_current(
    db: &AccountStore,
    access: Result<Vec<u8>, String>,
    refresh: Result<Vec<u8>, String>,
) -> (r: Result<Option<ExternalAccount>, String>)
    ensures
        match db@.current() {
            None => r matches Ok(None),
            Some(raw) => match (r, plaintext(raw, opened(access), opened(refresh))) {
                (Ok(Some(a)), Ok(b)) => a@ == b,
                (Err(e), Err(f)) => e@ == f,
                _ => false,
            },
        },
{
    match current_raw(db) {
        Some(raw) => match raw.into_plaintext(access, refresh) {
            Ok(a) => Ok(Some(a)),
            Err(e) => Err(e),
        },
        None => Ok(None),
    }
}

pub open spec fn relinked(req: LinkRequestView, access: Seq<u8>, refresh: Seq<u8>) -> spec_fn(
    ExternalAccountRawView,
) -> ExternalAccountRawView {
    |a: ExternalAccountRawView|
        ExternalAccountRawView {
            access_token_encrypted: access,
            refresh_token_encrypted: refresh,
            access_token_expires_at: req.access_token_expires_at,
            score_format: req.score_format,
            username: req.username,
            ..a
        }
}

/// A newly linked account: what the user watches and plans to watch is taken
/// over, and nothing else.
pub open spec fn new_account(
    id: i64,
    req: LinkRequestView,
    access: Seq<u8>,
    refresh: Seq<u8>,
    now: i64,
) -> ExternalAccountRawView {
    ExternalAccountRawView {
        id,
        provider: req.provider,
        provider_user_id: req.provider_user_id,
        username: req.username,
        access_token_encrypted: access,
        refresh_token_encrypted: refresh,
        access_token_expires_at: req.access_token_expires_at,
        score_format: req.score_format,
        list_last_synced_at: None,
        list_full_resync_at: None,
        linked_at: now,
        import_watching: true,
        import_planning: true,
        import_paused: false,
        import_dropped: false,
        import_completed: false,
        skip_already_watched: false,
        last_sync_deferred_count: 0,
        last_sync_auth_failed: false,
    }
}

/// Why a second account is not linked.
pub open spec fn already_linked() -> Seq<char> {
    "Another external account is already linked; unlink it first before switching accounts."@
}

impl AccountStoreView {
    /// The store after a request to link, and the id of the account or why
    /// there is none.
    pub open spec fn link(
        self,
        req: LinkRequestView,
        access: Result<Seq<u8>, Seq<char>>,
        refresh: Result<Seq<u8>, Seq<char>>,
        now: i64,
    ) -> (AccountStoreView, Result<i64, Seq<char>>) {
        let here = same_user(req.provider, req.provider_user_id);
        match access {
            Err(e) => (self, Err("encrypt access token: "@ + e)),
            Ok(a) => match refresh {
                Err(e) => (self, Err("encrypt refresh token: "@ + e)),
                Ok(r) => match first_where(self.accounts, here) {
                    Some(was) => (
                        AccountStoreView {
                            accounts: updated(self.accounts, here, relinked(req, a, r)),
                            ..self
                        },
                        Ok(was.id),
                    ),
                    None => if self.accounts.len() > 0 {
                        (self, Err(already_linked()))
                    } else if self.last_id == i64::MAX {
                        (
                            self,
                            Err(
                                "external_accounts INSERT failed: "@
                                    + StoreError::Full.reason_text(),
                            ),
                        )
                    } else {
                        let id = (self.last_id + 1) as i64;
                        (
                            AccountStoreView {
                                accounts: self.accounts.push(new_account(id, req, a, r, now)),
                                last_id: id,
                            },
                            Ok(id),
                        )
                    },
                },
            },
        }
    }
}

pub open spec fn link_result(r: Result<i64, String>) -> Result<i64, Seq<char>> {
    match r {
        Ok(id) => Ok(id),
        Err(e) => Err(e@),
    }
}

/// Links an account, given what came of sealing its tokens. An account that is
/// linked already gets its new tokens under the id it has; another one is
/// refused until the first is unlinked.
pub fn link(
    db: &mut AccountStore,
    req: LinkRequest,
    access: Result<Vec<u8>, String>,
    refresh: Result<Vec<u8>, String>,
    now: i64,
) -> (r: Result<i64, String>)
    requires
        old(db)@.wf(),
    ensures
        (final(db)@, link_result(r)) == old(db)@.link(req@, opened(access), opened(refresh), now),
        final(db)@.wf(),
{
    let access_bytes = match access {
        Ok(b) => b,
        Err(e) => {
            return Err(join2("encrypt access token: ", &e));
        },
    };
    let refresh_bytes = match refresh {
        Ok(b) => b,
        Err(e) => {
            return Err(join2("encrypt refresh token: ", &e));
        },
    };
    let ghost here = same_user(req@.provider, req@.provider_user_id);
    let find = |a: &ExternalAccountRaw| -> (b: bool)
        ensures b == here(a@)
        { same(&a.provider, &req.provider) && same(&a.provider_user_id, &req.provider_user_id) };
    match position(&db.accounts, find, Ghost(here)) {
        Some(at) => {
            let id: i64 = db.accounts[at].id;
            let ghost change = relinked(req@, access_bytes@, refresh_bytes@);
            proof {
                crate::table::lemma_numbered_updated(
                    db@.accounts,
                    account_id(),
                    db.last_id,
                    here,
                    change,
                );
            }
            let test = |a: &ExternalAccountRaw| -> (b: bool)
                ensures b == here(a@)
                {
                    same(&a.provider, &req.provider) && same(
                        &a.provider_user_id,
                        &req.provider_user_id,
                    )
                };
            let make = |a: ExternalAccountRaw| -> (o: ExternalAccountRaw)
                ensures o@ == change(a@)
                {
                    ExternalAccountRaw {
                        access_token_encrypted: dup_list(&access_bytes),
                        refresh_token_encrypted: dup_list(&refresh_bytes),
                        access_token_expires_at: req.access_token_expires_at,
                        score_format: req.score_format.clone(),
                        username: req.username.clone(),
                        ..a
                    }
                };
            let _n: usize = update_where(
                &mut db.accounts,
                test,
                make,
                Ghost(here),
                Ghost(change),
            );
            Ok(id)
        },
        None => {
            assert(db@.accounts.len() == db.accounts.len());
            if db.accounts.len() > 0 {
                return Err(
                    own(
                        "Another external account is already linked; unlink it first before switching accounts.",
                    ),
                );
            }
            if db.last_id == i64::MAX {
                return Err(
                    join2("external_accounts INSERT failed: ", StoreError::Full.reason()),
                );
            }
            let id: i64 = db.last_id + 1;
            let row = ExternalAccountRaw {
                id,
                provider: req.provider,
                provider_user_id: req.provider_user_id,
                username: req.username,
                access_token_encrypted: access_bytes,
                refresh_token_encrypted: refresh_bytes,
                access_token_expires_at: req.access_token_expires_at,
                score_format: req.score_format,
                list_last_synced_at: None,
                list_full_resync_at: None,
                linked_at: now,
                import_watching: true,
                import_planning: true,
                import_paused: false,
                import_dropped: false,
                import_completed: false,
                skip_already_watched: false,
                last_sync_deferred_count: 0,
                last_sync_auth_failed: false,
            };
            proof {
                crate::table::lemma_views_push(db.accounts@, row);
                crate::table::lemma_numbered_push(db@.accounts, account_id(), db.last_id, row@);
            }
            db.accounts.push(row);
            db.last_id = id;
            Ok(id)
        },
    }
}

pub open spec fn synced_from(id: i64) -> spec_fn(SeriesRowView) -> bool {
    |s: SeriesRowView| s.synced_from_external_account_id == Some(id)
}

pub open spec fn unscored() -> spec_fn(SeriesRowView) -> SeriesRowView {
    |s: SeriesRowView| SeriesRowView { user_score: None, ..s }
}

pub open spec fn detached() -> spec_fn(SeriesRowView) -> SeriesRowView {
    |s: SeriesRowView|
        SeriesRowView { user_score: None, synced_from_external_account_id: None, ..s }
}

pub open spec fn list_of(provider: Seq<char>) -> spec_fn(CustomListRowView) -> bool {
    |l: CustomListRowView| l.provider == provider
}

/// The series after an account was unlinked: they stay, without the scores of
/// that account, and without a mention of it.
pub open spec fn series_left(
    series: Seq<SeriesRowView>,
    account: Option<ExternalAccountRawView>,
    id: i64,
) -> Seq<SeriesRowView> {
    updated(
        series,
        synced_from(id),
        if account is Some {
            detached()
        } else {
            unscored()
        },
    )
}

/// The lists after an account was unlinked: without those of its service.
pub open spec fn lists_left(
    lists: Seq<CustomListRowView>,
    account: Option<ExternalAccountRawView>,
) -> Seq<CustomListRowView> {
    match account {
        Some(a) => without(lists, list_of(a.provider)),
        None => lists,
    }
}

/// Unlinks an account. Its series stay in the library, without the scores that
/// came from it; the lists of its service go.
pub fn unlink(
    db: &mut AccountStore,
    series: &mut Vec<SeriesRow>,
    lists: &mut Vec<CustomListRow>,
    id: i64,
)
    requires
        old(db)@.wf(),
    ensures
        final(db)@ == (AccountStoreView {
            accounts: without(old(db)@.accounts, is_account(id)),
            ..old(db)@
        }),
        views(final(series)@) == series_left(
            views(old(series)@),
            first_where(old(db)@.accounts, is_account(id)),
            id,
        ),
        views(final(lists)@) == lists_left(
            views(old(lists)@),
            first_where(old(db)@.accounts, is_account(id)),
        ),
        final(db)@.wf(),
        forall|r: ExternalAccountRawView| #[trigger]
            final(db)@.accounts.contains(r) <==> old(db)@.accounts.contains(r) && !(r.id == id),
{
    proof {
        crate::table::lemma_without_contains(db@.accounts, is_account(id));
    }
    let by_id = |a: &ExternalAccountRaw| -> (b: bool)
        ensures b == is_account(id)(a@)
        { a.id == id };
    let account = find_first(&db.accounts, by_id, Ghost(is_account(id)));
    let from_it = |s: &SeriesRow| -> (b: bool)
        ensures b == synced_from(id)(s@)
        { s.synced_from_external_account_id == Some(id) };
    match account {
        Some(a) => {
            let forget = |s: SeriesRow| -> (o: SeriesRow)
                ensures o@ == detached()(s@)
                {
                    SeriesRow {
                        user_score: None,
                        synced_from_external_account_id: None,
                        ..s
                    }
                };
            let _n: usize = update_where(
                series,
                from_it,
                forget,
                Ghost(synced_from(id)),
                Ghost(detached()),
            );
            let provider = a.provider;
            let ghost theirs = list_of(provider@);
            let test = |l: &CustomListRow| -> (b: bool)
                ensures b == theirs(l@)
                { same(&l.provider, &provider) };
            let _m: usize = delete_where(lists, test, Ghost(theirs));
        },
        None => {
            let forget = |s: SeriesRow| -> (o: SeriesRow)
                ensures o@ == unscored()(s@)
                { SeriesRow { user_score: None, ..s } };
            let _n: usize = update_where(
                series,
                from_it,
                forget,
                Ghost(synced_from(id)),
                Ghost(unscored()),
            );
        },
    }
    proof {
        crate::table::lemma_numbered_without(
            db@.accounts,
            account_id(),
            db.last_id,
            is_account(id),
        );
        db@.accounts.lemma_filter_len(|a: ExternalAccountRawView| !is_account(id)(a));
    }
    let again = |a: &ExternalAccountRaw| -> (b: bool)
        ensures b == is_account(id)(a@)
        { a.id == id };
    let _n: usize = delete_where(&mut db.accounts, again, Ghost(is_account(id)));
}

fn change_account<G: Fn(ExternalAccountRaw) -> ExternalAccountRaw>(
    db: &mut AccountStore,
    id: i64,
    change: G,
    Ghost(changed): Ghost<spec_fn(ExternalAccountRawView) -> ExternalAccountRawView>,
)
    requires
        old(db)@.wf(),
        forall|v: ExternalAccountRawView| (#[trigger] changed(v)).id == v.id,
        forall|t: ExternalAccountRaw| #[trigger] call_requires(change, (t,)),
        forall|t: ExternalAccountRaw, r: ExternalAccountRaw| #[trigger]
            call_ensures(change, (t,), r) ==> r@ == changed(t@),
    ensures
        final(db)@ == (AccountStoreView {
            accounts: updated(old(db)@.accounts, is_account(id), changed),
            ..old(db)@
        }),
        final(db)@.wf(),
{
    proof {
        crate::table::lemma_numbered_updated(
            db@.accounts,
            account_id(),
            db.last_id,
            is_account(id),
            changed,
        );
    }
    let test = |a: &ExternalAccountRaw| -> (b: bool)
        ensures b == is_account(id)(a@)
        { a.id == id };
    let _n: usize = update_where(
        &mut db.accounts,
        test,
        change,
        Ghost(is_account(id)),
        Ghost(changed),
    );
}

pub open spec fn with_tokens(access: Seq<u8>, refresh: Seq<u8>, expires_at: Option<i64>) -> spec_fn(
    ExternalAccountRawView,
) -> ExternalAccountRawView {
    |a: ExternalAccountRawView|
        ExternalAccountRawView {
            access_token_encrypted: access,
            refresh_token_encrypted: refresh,
            access_token_expires_at: expires_at,
            ..a
        }
}

/// Gives an account new tokens, given what came of sealing them.
pub fn update_tokens(
    db: &mut AccountStore,
    id: i64,
    access: Result<Vec<u8>, String>,
    refresh: Result<Vec<u8>, String>,
    expires_at: Option<i64>,
) -> (r: Result<(), String>)
    requires
        old(db)@.wf(),
    ensures
        match (opened(access), opened(refresh)) {
            (Err(e), _) => (r matches Err(f) && f@ == "encrypt access: "@ + e) && final(db)@
                == old(db)@,
            (Ok(_), Err(e)) => (r matches Err(f) && f@ == "encrypt refresh: "@ + e) && final(db)@
                == old(db)@,
            (Ok(a), Ok(b)) => r is Ok && final(db)@ == (AccountStoreView {
                accounts: updated(
                    old(db)@.accounts,
                    is_account(id),
                    with_tokens(a, b, expires_at),
                ),
                ..old(db)@
            }),
        },
        final(db)@.wf(),
        final(db)@.accounts.len() == old(db)@.accounts.len(),
        access is Ok && refresh is Ok ==> forall|i: int|
            0 <= i < old(db)@.accounts.len() ==> (#[trigger] final(db)@.accounts[i]) == ({
                let a = old(db)@.accounts[i];
                if a.id == id {
                    ExternalAccountRawView {
                        access_token_encrypted: access->Ok_0@,
                        refresh_token_encrypted: refresh->Ok_0@,
                        access_token_expires_at: expires_at,
                        ..a
                    }
                } else {
                    a
                }
            }),
        r is Ok <==> access is Ok && refresh is Ok,
{
    let access_bytes = match access {
        Ok(b) => b,
        Err(e) => {
            return Err(join2("encrypt access: ", &e));
        },
    };
    let refresh_bytes = match refresh {
        Ok(b) => b,
        Err(e) => {
            return Err(join2("encrypt refresh: ", &e));
        },
    };
    let ghost changed = with_tokens(access_bytes@, refresh_bytes@, expires_at);
    let change = |a: ExternalAccountRaw| -> (o: ExternalAccountRaw)
        ensures o@ == changed(a@)
        {
            ExternalAccountRaw {
                access_token_encrypted: dup_list(&access_bytes),
                refresh_token_encrypted: dup_list(&refresh_bytes),
                access_token_expires_at: expires_at,
                ..a
            }
        };
    change_account(db, id, change, Ghost(changed));
    Ok(())
}

pub open spec fn with_deferred(count: i64) -> spec_fn(
    ExternalAccountRawView,
) -> ExternalAccountRawView {
    |a: ExternalAccountRawView|
        ExternalAccountRawView { last_sync_deferred_count: count, ..a }
}

/// Keeps how many entries of the last run could not be matched.
pub fn update_last_sync_deferred_count(db: &mut AccountStore, id: i64, count: i64)
    requires
        old(db)@.wf(),
    ensures
        final(db)@ == (AccountStoreView {
            accounts: updated(old(db)@.accounts, is_account(id), with_deferred(count)),
            ..old(db)@
        }),
        final(db)@.wf(),
        final(db)@.accounts.len() == old(db)@.accounts.len(),
        forall|i: int|
            0 <= i < old(db)@.accounts.len() ==> (#[trigger] final(db)@.accounts[i]) == ({
                let r = old(db)@.accounts[i];
                if r.id == id {
                    ExternalAccountRawView { last_sync_deferred_count: count, ..r }
                } else {
                    r
                }
            }),
{
    let change = |a: ExternalAccountRaw| -> (o: ExternalAccountRaw)
        ensures o@ == with_deferred(count)(a@)
        { ExternalAccountRaw { last_sync_deferred_count: count, ..a } };
    change_account(db, id, change, Ghost(with_deferred(count)));
}

pub open spec fn with_auth_failed(flag: bool) -> spec_fn(
    ExternalAccountRawView,
) -> ExternalAccountRawView {
    |a: ExternalAccountRawView| ExternalAccountRawView { last_sync_auth_failed: flag, ..a }
}

/// Keeps whether the service turned the last run away.
pub fn update_last_sync_auth_failed(db: &mut AccountStore, id: i64, flag: bool)
    requires
        old(db)@.wf(),
    ensures
        final(db)@ == (AccountStoreView {
            accounts: updated(old(db)@.accounts, is_account(id), with_auth_failed(flag)),
            ..old(db)@
        }),
        final(db)@.wf(),
        final(db)@.accounts.len() == old(db)@.accounts.len(),
        forall|i: int|
            0 <= i < old(db)@.accounts.len() ==> (#[trigger] final(db)@.accounts[i]) == ({
                let r = old(db)@.accounts[i];
                if r.id == id {
                    ExternalAccountRawView { last_sync_auth_failed: flag, ..r }
                } else {
                    r
                }
            }),
{
    let change = |a: ExternalAccountRaw| -> (o: ExternalAccountRaw)
        ensures o@ == with_auth_failed(flag)(a@)
        { ExternalAccountRaw { last_sync_auth_failed: flag, ..a } };
    change_account(db, id, change, Ghost(with_auth_failed(flag)));
}

pub open spec fn with_score_format(format: Seq<char>) -> spec_fn(
    ExternalAccountRawView,
) -> ExternalAccountRawView {
    |a: ExternalAccountRawView| ExternalAccountRawView { score_format: format, ..a }
}

/// Keeps how the account counts scores. An empty answer leaves it as it was.
pub fn update_score_format(db: &mut AccountStore, id: i64, score_format: &str)
    requires
        old(db)@.wf(),
    ensures
        score_format@.len() == 0 ==> final(db)@ == old(db)@,
        score_format@.len() > 0 ==> final(db)@ == (AccountStoreView {
            accounts: updated(
                old(db)@.accounts,
                is_account(id),
                with_score_format(score_format@),
            ),
            ..old(db)@
        }),
        final(db)@.wf(),
        final(db)@.accounts.len() == old(db)@.accounts.len(),
        forall|i: int|
            0 <= i < old(db)@.accounts.len() ==> (#[trigger] final(db)@.accounts[i]) == ({
                let r = old(db)@.accounts[i];
                if r.id == id && score_format@.len() > 0 {
                    ExternalAccountRawView { score_format: score_format@, ..r }
                } else {
                    r
                }
            }),
{
    if score_format.is_empty() {
        return;
    }
    let ghost changed = with_score_format(score_format@);
    let change = |a: ExternalAccountRaw| -> (o: ExternalAccountRaw)
        ensures o@ == changed(a@)
        { ExternalAccountRaw { score_format: own(score_format), ..a } };
    change_account(db, id, change, Ghost(changed));
}

/// When the list was last read; a full reading is noted as such too.
pub open spec fn synced_at(now: i64, full: bool) -> spec_fn(
    ExternalAccountRawView,
) -> ExternalAccountRawView {
    |a: ExternalAccountRawView|
        ExternalAccountRawView {
            list_last_synced_at: Some(now),
            list_full_resync_at: if full {
                Some(now)
            } else {
                a.list_full_resync_at
            },
            ..a
        }
}

/// Notes that the list was read, in full or only what changed.
pub fn stamp_list_synced(db: &mut AccountStore, id: i64, now_unix_ts: i64, was_full_sync: bool)
    requires
        old(db)@.wf(),
    ensures
        final(db)@ == (AccountStoreView {
            accounts: updated(
                old(db)@.accounts,
                is_account(id),
                synced_at(now_unix_ts, was_full_sync),
            ),
            ..old(db)@
        }),
        final(db)@.wf(),
        final(db)@.accounts.len() == old(db)@.accounts.len(),
        forall|i: int|
            0 <= i < old(db)@.accounts.len() ==> (#[trigger] final(db)@.accounts[i]) == ({
                let r = old(db)@.accounts[i];
                if r.id == id {
                    ExternalAccountRawView {
                        list_last_synced_at: Some(now_unix_ts),
                        list_full_resync_at: if was_full_sync {
                            Some(now_unix_ts)
                        } else {
                            r.list_full_resync_at
                        },
                        ..r
                    }
                } else {
                    r
                }
            }),
{
    let ghost changed = synced_at(now_unix_ts, was_full_sync);
    let change = |a: ExternalAccountRaw| -> (o: ExternalAccountRaw)
        ensures o@ == changed(a@)
        {
            let full: Option<i64> = if was_full_sync {
                Some(now_unix_ts)
            } else {
                a.list_full_resync_at
            };
            ExternalAccountRaw {
                list_last_synced_at: Some(now_unix_ts),
                list_full_resync_at: full,
                ..a
            }
        };
    change_account(db, id, change, Ghost(changed));
}

pub open spec fn with_preferences(prefs: ImportPreferences) -> spec_fn(
    ExternalAccountRawView,
) -> ExternalAccountRawView {
    |a: ExternalAccountRawView|
        ExternalAccountRawView {
            import_watching: prefs.import_watching,
            import_planning: prefs.import_planning,
            import_paused: prefs.import_paused,
            import_dropped: prefs.import_dropped,
            import_completed: prefs.import_completed,
            skip_already_watched: prefs.skip_already_watched,
            ..a
        }
}

/// Sets which lists are taken over.
pub fn update_preferences(db: &mut AccountStore, id: i64, prefs: ImportPreferences)
    requires
        old(db)@.wf(),
    ensures
        final(db)@ == (AccountStoreView {
            accounts: updated(old(db)@.accounts, is_account(id), with_preferences(prefs)),
            ..old(db)@
        }),
        final(db)@.wf(),
        final(db)@.accounts.len() == old(db)@.accounts.len(),
        forall|i: int|
            0 <= i < old(db)@.accounts.len() ==> (#[trigger] final(db)@.accounts[i]) == ({
                let r = old(db)@.accounts[i];
                if r.id == id {
                    ExternalAccountRawView {
                        import_watching: prefs.import_watching,
                        import_planning: prefs.import_planning,
                        import_paused: prefs.import_paused,
                        import_dropped: prefs.import_dropped,
                        import_completed: prefs.import_completed,
                        skip_already_watched: prefs.skip_already_watched,
                        ..r
                    }
                } else {
                    r
                }
            }),
{
    let change = |a: ExternalAccountRaw| -> (o: ExternalAccountRaw)
        ensures o@ == with_preferences(prefs)(a@)
        {
            ExternalAccountRaw {
                import_watching: prefs.import_watching,
                import_planning: prefs.import_planning,
                import_paused: prefs.import_paused,
                import_dropped: prefs.import_dropped,
                import_completed: prefs.import_completed,
                skip_already_watched: prefs.skip_already_watched,
                ..a
            }
        };
    change_account(db, id, change, Ghost(with_preferences(prefs)));
}

impl AccountStore {
    /// A store without accounts.
    pub fn new() -> (db: AccountStore)
        ensures
            db@ == (AccountStoreView { accounts: Seq::empty(), last_id: 0 }),
            db@.wf(),
    {
        let db = AccountStore { accounts: Vec::new(), last_id: 0 };
        assert(db@.accounts =~= Seq::<ExternalAccountRawView>::empty());
        db
    }

    /// Whether the store is as the rules leave it.
    pub fn check(&self) -> (r: bool)
        ensures
            r == self@.wf(),
    {
        let id_of = |a: &ExternalAccountRaw| -> (n: i64)
            ensures n == account_id()(a@)
            { a.id };
        let a: bool = check_numbered(&self.accounts, self.last_id, id_of, Ghost(account_id()));
        assert(self@.accounts.len() == self.accounts.len());
        a && self.accounts.len() <= 1
    }
}

/// Linking never leaves a second account beside the one there is.
pub proof fn one_account_at_a_time(
    db: AccountStoreView,
    req: LinkRequestView,
    access: Result<Seq<u8>, Seq<char>>,
    refresh: Result<Seq<u8>, Seq<char>>,
    now: i64,
)
    requires
        db.wf(),
    ensures
        db.link(req, access, refresh, now).0.wf(),
{
    let after = db.link(req, access, refresh, now).0;
    if let (Ok(a), Ok(r)) = (access, refresh) {
        let here = same_user(req.provider, req.provider_user_id);
        crate::table::lemma_numbered_updated(
            db.accounts,
            account_id(),
            db.last_id,
            here,
            relinked(req, a, r),
        );
        if db.last_id < i64::MAX {
            crate::table::lemma_numbered_push(
                db.accounts,
                account_id(),
                db.last_id,
                new_account((db.last_id + 1) as i64, req, a, r, now),
            );
        }
    }
}

/// Another account than the linked one is refused, and nothing changes.
pub proof fn a_second_account_is_refused(
    db: AccountStoreView,
    req: LinkRequestView,
    access: Seq<u8>,
    refresh: Seq<u8>,
    now: i64,
)
    requires
        db.accounts.len() > 0,
        !any_where(db.accounts, same_user(req.provider, req.provider_user_id)),
    ensures
        db.link(req, Ok(access), Ok(refresh), now) == (db, Err::<i64, Seq<char>>(already_linked())),
{
    crate::table::lemma_first_where_any(
        db.accounts,
        same_user(req.provider, req.provider_user_id),
    );
}

/// Linking the same account again keeps its row and its id.
pub proof fn linking_again_keeps_the_id(
    db: AccountStoreView,
    req: LinkRequestView,
    access: Seq<u8>,
    refresh: Seq<u8>,
    now: i64,
)
    requires
        any_where(db.accounts, same_user(req.provider, req.provider_user_id)),
    ensures
        ({
            let here = same_user(req.provider, req.provider_user_id);
            let (after, r) = db.link(req, Ok(access), Ok(refresh), now);
            let was = first_where(db.accounts, here)->0;
            &&& r == Ok::<i64, Seq<char>>(was.id)
            &&& after.accounts.len() == db.accounts.len()
            &&& first_where(after.accounts, here) == Some(relinked(req, access, refresh)(was))
        }),
{
    let here = same_user(req.provider, req.provider_user_id);
    crate::table::lemma_first_where_any(db.accounts, here);
    crate::table::lemma_first_where_updated(
        db.accounts,
        here,
        relinked(req, access, refresh),
        here,
    );
}

/// Once the linked account is unlinked, any other can be linked.
pub proof fn unlinking_leaves_room(
    db: AccountStoreView,
    id: i64,
    req: LinkRequestView,
    access: Seq<u8>,
    refresh: Seq<u8>,
    now: i64,
)
    requires
        db.wf(),
        any_where(db.accounts, is_account(id)),
        db.last_id < i64::MAX,
    ensures
        ({
            let left = AccountStoreView {
                accounts: without(db.accounts, is_account(id)),
                ..db
            };
            &&& left.current() is None
            &&& left.link(req, Ok(access), Ok(refresh), now).1 is Ok
        }),
{
    let left = without(db.accounts, is_account(id));
    crate::table::lemma_without_members(db.accounts, is_account(id));
    if left.len() > 0 {
        assert(db.accounts.contains(left[0]));
        assert(!is_account(id)(left[0]));
    }
    assert(left =~= Seq::<ExternalAccountRawView>::empty());
    assert(ordered(left, last_linked_first()) =~= left);
}

/// Tokens are read as they were linked, when they are opened to the bytes that
/// were sealed.
pub proof fn tokens_are_read_as_they_were(
    raw: ExternalAccountRawView,
    access_token: Seq<char>,
    refresh_token: Seq<char>,
)
    requires
        raw.refresh_token_encrypted.len() > 0,
    ensures
        ({
            let r = plaintext(
                raw,
                Ok(encode_utf8(access_token)),
                Ok(encode_utf8(refresh_token)),
            );
            &&& r is Ok
            &&& (r->Ok_0).access_token == access_token
            &&& (r->Ok_0).refresh_token == refresh_token
        }),
{
    vstd::utf8::encode_utf8_valid_utf8(access_token);
    vstd::utf8::encode_utf8_valid_utf8(refresh_token);
    vstd::utf8::encode_utf8_decode_utf8(access_token);
    vstd::utf8::encode_utf8_decode_utf8(refresh_token);
}

/// What is shown of an account says nothing of its tokens: two accounts that
/// differ only there are shown alike.
pub proof fn a_shown_account_tells_no_token(a: ExternalAccountView, b: ExternalAccountView)
    requires
        a == (ExternalAccountView {
            access_token: a.access_token,
            refresh_token: a.refresh_token,
            ..b
        }),
    ensures
        a.redacted() == b.redacted(),
{
}

/// Unlinking keeps every series, and the scores that did not come from the
/// account.
pub proof fn unlinking_keeps_the_series(
    series: Seq<SeriesRowView>,
    account: Option<ExternalAccountRawView>,
    id: i64,
    i: int,
)
    requires
        0 <= i < series.len(),
    ensures
        series_left(series, account, id).len() == series.len(),
        series_left(series, account, id)[i].id == series[i].id,
        series[i].synced_from_external_account_id != Some(id) ==> series_left(series, account, id)[i]
            == series[i],
        series[i].synced_from_external_account_id == Some(id) ==> series_left(
            series,
            account,
            id,
        )[i].user_score is None,
{
}

/// A reading of what changed leaves the time of the last full one.
pub proof fn a_short_reading_keeps_the_full_one(a: ExternalAccountRawView, t: i64, later: i64)
    ensures
        synced_at(later, false)(synced_at(t, true)(a)).list_full_resync_at == Some(t),
        synced_at(later, false)(synced_at(t, true)(a)).list_last_synced_at == Some(later),
{
}

/// A first link stores the account with what was given. It takes in what is
/// watched and what is planned, and nothing else, until the user says
/// otherwise.
pub proof fn a_new_link_is_stored_as_given(
    db: AccountStoreView,
    req: LinkRequestView,
    access: Seq<u8>,
    refresh: Seq<u8>,
    now: i64,
)
    requires
        db.accounts.len() == 0,
        db.last_id < i64::MAX,
    ensures
        ({
            let (after, r) = db.link(req, Ok(access), Ok(refresh), now);
            let a = after.accounts[0];
            &&& r == Ok::<i64, Seq<char>>(a.id)
            &&& after.accounts.len() == 1
            &&& a.id > db.last_id
            &&& a.provider == req.provider && a.provider_user_id == req.provider_user_id
                && a.username == req.username
            &&& a.access_token_encrypted == access && a.refresh_token_encrypted == refresh
                && a.access_token_expires_at == req.access_token_expires_at
            &&& a.score_format == req.score_format && a.linked_at == now
            &&& a.list_last_synced_at is None && a.list_full_resync_at is None
            &&& a.import_watching && a.import_planning && !a.import_paused && !a.import_dropped
                && !a.import_completed && !a.skip_already_watched
            &&& a.last_sync_deferred_count == 0 && !a.last_sync_auth_failed
        }),
{
}

/// Linking the same user again renews the tokens, the name and the way scores
/// are given, and keeps the rest: the id, the preferences and what was read.
pub proof fn linking_again_renews_the_tokens(
    db: AccountStoreView,
    req: LinkRequestView,
    access: Seq<u8>,
    refresh: Seq<u8>,
    now: i64,
    i: int,
)
    requires
        exists|k: int|
            0 <= k < db.accounts.len() && (#[trigger] db.accounts[k]).provider == req.provider
                && db.accounts[k].provider_user_id == req.provider_user_id,
        0 <= i < db.accounts.len(),
    ensures
        ({
            let (after, r) = db.link(req, Ok(access), Ok(refresh), now);
            let was = db.accounts[i];
            let a = after.accounts[i];
            &&& r is Ok
            &&& after.accounts.len() == db.accounts.len()
            &&& was.provider != req.provider || was.provider_user_id != req.provider_user_id ==> a
                == was
            &&& was.provider == req.provider && was.provider_user_id == req.provider_user_id ==> {
                &&& a.access_token_encrypted == access && a.refresh_token_encrypted == refresh
                    && a.access_token_expires_at == req.access_token_expires_at
                &&& a.username == req.username && a.score_format == req.score_format
                &&& a.id == was.id && a.provider == was.provider && a.provider_user_id
                    == was.provider_user_id && a.linked_at == was.linked_at
                &&& a.list_last_synced_at == was.list_last_synced_at && a.list_full_resync_at
                    == was.list_full_resync_at
                &&& a.import_watching == was.import_watching && a.import_planning
                    == was.import_planning && a.import_paused == was.import_paused
                    && a.import_dropped == was.import_dropped && a.import_completed
                    == was.import_completed && a.skip_already_watched == was.skip_already_watched
                &&& a.last_sync_deferred_count == was.last_sync_deferred_count
                    && a.last_sync_auth_failed == was.last_sync_auth_failed
            }
        }),
{
    let here = same_user(req.provider, req.provider_user_id);
    let k = choose|k: int|
        0 <= k < db.accounts.len() && (#[trigger] db.accounts[k]).provider == req.provider
            && db.accounts[k].provider_user_id == req.provider_user_id;
    assert(here(db.accounts[k]));
    crate::table::lemma_first_where_any(db.accounts, here);
}

/// Tokens that cannot be encrypted leave everything as it was.
pub proof fn a_link_needs_its_tokens(
    db: AccountStoreView,
    req: LinkRequestView,
    access: Result<Seq<u8>, Seq<char>>,
    refresh: Result<Seq<u8>, Seq<char>>,
    now: i64,
)
    ensures
        access matches Err(e) ==> db.link(req, access, refresh, now) == (
            db,
            Err::<i64, Seq<char>>("encrypt access token: "@ + e),
        ),
        access is Ok && refresh is Err ==> db.link(req, access, refresh, now) == (
            db,
            Err::<i64, Seq<char>>("encrypt refresh token: "@ + refresh->Err_0),
        ),
{
}

/// An account that is read has everything of the stored one, with the tokens
/// as they were decrypted; one without a refresh token is read with an empty
/// one.
pub proof fn a_read_account_is_the_stored_one(
    raw: ExternalAccountRawView,
    access: Result<Seq<u8>, Seq<char>>,
    refresh: Result<Seq<u8>, Seq<char>>,
)
    ensures
        match plaintext(raw, access, refresh) {
            Ok(a) => {
                &&& access is Ok && valid_utf8(access->Ok_0) && a.access_token == decode_utf8(
                    access->Ok_0,
                )
                &&& raw.refresh_token_encrypted.len() > 0 ==> refresh is Ok && a.refresh_token
                    == decode_utf8(refresh->Ok_0)
                &&& raw.refresh_token_encrypted.len() == 0 ==> a.refresh_token == decode_utf8(
                    Seq::<u8>::empty(),
                )
                &&& a.id == raw.id && a.provider == raw.provider && a.provider_user_id
                    == raw.provider_user_id && a.username == raw.username
                &&& a.access_token_expires_at == raw.access_token_expires_at && a.score_format
                    == raw.score_format && a.linked_at == raw.linked_at
                &&& a.list_last_synced_at == raw.list_last_synced_at && a.list_full_resync_at
                    == raw.list_full_resync_at
                &&& a.import_watching == raw.import_watching && a.import_planning
                    == raw.import_planning && a.import_paused == raw.import_paused
                    && a.import_dropped == raw.import_dropped && a.import_completed
                    == raw.import_completed && a.skip_already_watched == raw.skip_already_watched
                &&& a.last_sync_deferred_count == raw.last_sync_deferred_count
                    && a.last_sync_auth_failed == raw.last_sync_auth_failed
            },
            Err(e) => {
                &&& access is Err ==> e == "decrypt access token: "@ + access->Err_0
                &&& access is Ok && refresh is Err && raw.refresh_token_encrypted.len() > 0 ==> e
                    == "decrypt refresh token: "@ + refresh->Err_0
                &&& access is Ok ==> !valid_utf8(access->Ok_0) || raw.refresh_token_encrypted.len()
                    > 0 || !valid_utf8(Seq::<u8>::empty())
                &&& access is Ok && !valid_utf8(access->Ok_0) && (refresh is Ok
                    || raw.refresh_token_encrypted.len() == 0) ==> e
                    == "access token is not UTF-8: "@ + utf8_error(access->Ok_0)
                &&& access is Ok && valid_utf8(access->Ok_0) && refresh is Ok
                    && raw.refresh_token_encrypted.len() > 0 ==> !valid_utf8(refresh->Ok_0) && e
                    == "refresh token is not UTF-8: "@ + utf8_error(refresh->Ok_0)
            },
        },
{
}

/// What is shown of an account or of a request holds a mark in place of each
/// token, and everything else as it is.
pub proof fn a_shown_account_is_otherwise_the_same(a: ExternalAccountView, r: LinkRequestView)
    ensures
        a.redacted().access_token == "<redacted>"@,
        a.redacted().refresh_token == "<redacted>"@,
        a.redacted() == (ExternalAccountView {
            access_token: a.redacted().access_token,
            refresh_token: a.redacted().refresh_token,
            ..a
        }),
        r.redacted().access_token == "<redacted>"@,
        r.redacted().refresh_token == "<redacted>"@,
        r.redacted() == (LinkRequestView {
            access_token: r.redacted().access_token,
            refresh_token: r.redacted().refresh_token,
            ..r
        }),
{
}

/// The account that is in use is the only one there is, where there is one.
pub proof fn the_only_account_is_in_use(db: AccountStoreView)
    requires
        db.wf(),
    ensures
        db.accounts.len() == 0 ==> db.current() is None,
        db.accounts.len() > 0 ==> db.current() == Some(db.accounts[0]),
{
    crate::table::lemma_ordered_members(db.accounts, last_linked_first());
    let o = ordered(db.accounts, last_linked_first());
    if db.accounts.len() > 0 {
        assert(db.accounts.contains(o[0]));
    }
}

/// Unlinking drops the lists of the account's provider and no others, and
/// takes from a series that came from it the score and the mark of the account
/// alone.
pub proof fn unlinking_drops_what_came_from_the_account(
    series: Seq<SeriesRowView>,
    lists: Seq<CustomListRowView>,
    account: ExternalAccountRawView,
    i: int,
    l: CustomListRowView,
)
    requires
        0 <= i < series.len(),
    ensures
        lists_left(lists, Some(account)).contains(l) <==> lists.contains(l) && l.provider
            != account.provider,
        lists_left(lists, None) == lists,
        series[i].synced_from_external_account_id == Some(account.id) ==> series_left(
            series,
            Some(account),
            account.id,
        )[i] == (SeriesRowView {
            user_score: None,
            synced_from_external_account_id: None,
            ..series[i]
        }),
        series[i].synced_from_external_account_id != Some(account.id) ==> series_left(
            series,
            Some(account),
            account.id,
        )[i] == series[i],
{
    crate::table::lemma_without_contains(lists, list_of(account.provider));
}

} // verus!
