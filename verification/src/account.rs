//! The ACME account: a cached one where there is one, else a new one.
use instant_acme::AccountCredentials;
use vstd::prelude::*;

verus! {

/// The credentials of an ACME account.
#[verifier::external_type_specification]
#[verifier::external_body]
pub struct ExAccountCredentials(instant_acme::AccountCredentials);

/// The account credentials that `serde_json` reads out of a text, if it reads any.
pub uninterp spec fn credentials_in(text: Seq<char>) -> Option<AccountCredentials>;

/// The text that `serde_json` writes for account credentials, or its complaint.
pub uninterp spec fn credentials_json(credentials: AccountCredentials) -> Result<
    Seq<char>,
    Seq<char>,
>;

/// `serde_json::from_str` at `instant_acme::AccountCredentials`: the credentials in a
/// text depend on the text alone.
#[verifier::external_body]
fn read_credentials(text: &str) -> (r: Option<AccountCredentials>)
    ensures
        r == credentials_in(text@),
{
    serde_json::from_str::<AccountCredentials>(text).ok()
}

/// The text, or the complaint.
pub open spec fn text_view(r: Result<String, String>) -> Result<Seq<char>, Seq<char>> {
    match r {
        Ok(text) => Ok(text@),
        Err(e) => Err(e@),
    }
}

/// `serde_json::to_string` at `instant_acme::AccountCredentials`: the text depends on the
/// credentials alone, and the same credentials are read out of it again.
#[verifier::external_body]
fn write_credentials(credentials: &AccountCredentials) -> (r: Result<String, String>)
    ensures
        text_view(r) == credentials_json(*credentials),
        r matches Ok(text) ==> credentials_in(text@) == Some(*credentials),
{
    serde_json::to_string(credentials).map_err(|e| e.to_string())
}

/// Where account credentials are cached.
pub open spec fn account_path_spec() -> Seq<char> {
    "/tmp/loom_acme_account.json"@
}

/// Where account credentials are cached.
pub fn account_path() -> (r: &'static str)
    ensures
        r@ == account_path_spec(),
{
    "/tmp/loom_acme_account.json"
}

/// The contact of an account.
pub fn account_contact(email: &str) -> (r: String)
    ensures
        r@ == "mailto:"@ + email@,
{
    let mut s = "mailto:".to_owned();
    s.append(email);
    s
}

/// How far the opening of an account has come.
#[derive(Debug, Clone, Copy, PartialEq, Eq, Structural)]
pub enum AccountStage {
    /// The cached credentials are being tried.
    Trying,
    /// A new account is being created.
    Creating,
    /// The new credentials are being cached.
    Caching,
    /// The account is open.
    Open,
    /// No account could be opened.
    Failed,
}

/// What came of the last action.
pub enum AccountEvent {
    /// The cached credentials were accepted, or not.
    Tried(bool),
    /// A new account was created, with these credentials.
    Created(AccountCredentials),
    /// The new credentials were cached, or not.
    Cached(bool),
}

/// What to do next.
pub enum AccountAction {
    /// Try these cached credentials.
    TryCached(AccountCredentials),
    /// Create a new account.
    Create {
        contact: String,
        /// Whether the terms of service are agreed to.
        terms_agreed: bool,
        /// Whether only an account that exists already is wanted.
        only_existing: bool,
    },
    /// Have the file at this path hold this text.
    Cache { path: String, text: String },
    /// Use the account.
    Use,
    /// The opening is given up, for this reason.
    Fail(String),
}

/// What an [`AccountAction`] says.
pub enum AccountActionView {
    TryCached(AccountCredentials),
    Create { contact: Seq<char>, terms_agreed: bool, only_existing: bool },
    Cache { path: Seq<char>, text: Seq<char> },
    Use,
    Fail(Seq<char>),
}

impl View for AccountAction {
    type V = AccountActionView;

    open spec fn view(&self) -> AccountActionView {
        match self {
            AccountAction::TryCached(credentials) => AccountActionView::TryCached(*credentials),
            AccountAction::Create { contact, terms_agreed, only_existing } => {
                AccountActionView::Create {
                    contact: contact@,
                    terms_agreed: *terms_agreed,
                    only_existing: *only_existing,
                }
            },
            AccountAction::Cache { path, text } => AccountActionView::Cache {
                path: path@,
                text: text@,
            },
            AccountAction::Use => AccountActionView::Use,
            AccountAction::Fail(e) => AccountActionView::Fail(e@),
        }
    }
}

/// The creation of a new account for an address: the terms are agreed to.
pub open spec fn create_spec(email: Seq<char>) -> (AccountStage, AccountActionView) {
    (
        AccountStage::Creating,
        AccountActionView::Create {
            contact: "mailto:"@ + email,
            terms_agreed: true,
            only_existing: false,
        },
    )
}

/// How the opening of an account starts, with the cached credentials if there are any.
pub open spec fn account_start_spec(found: Option<AccountCredentials>, email: Seq<char>) -> (
    AccountStage,
    AccountActionView,
) {
    match found {
        Some(credentials) => (AccountStage::Trying, AccountActionView::TryCached(credentials)),
        None => create_spec(email),
    }
}

/// How the opening goes on when the new credentials were written down, or could not be.
pub open spec fn cache_spec(written: Result<Seq<char>, Seq<char>>) -> (
    AccountStage,
    AccountActionView,
) {
    match written {
        Ok(text) => (
            AccountStage::Caching,
            AccountActionView::Cache { path: account_path_spec(), text },
        ),
        Err(e) => (AccountStage::Failed, AccountActionView::Fail(e)),
    }
}

/// Whether an event is one that comes of the stage's own action.
pub open spec fn account_expects(stage: AccountStage, event: AccountEvent) -> bool {
    match stage {
        AccountStage::Trying => event is Tried,
        AccountStage::Creating => event is Created,
        AccountStage::Caching => event is Cached,
        AccountStage::Open => false,
        AccountStage::Failed => false,
    }
}

/// How the opening of an account goes on.
pub open spec fn account_step_spec(stage: AccountStage, event: AccountEvent, email: Seq<char>) -> (
    AccountStage,
    AccountActionView,
) {
    match (stage, event) {
        (AccountStage::Trying, AccountEvent::Tried(false)) => create_spec(email),
        (AccountStage::Creating, AccountEvent::Created(credentials)) => cache_spec(
            credentials_json(credentials),
        ),
        _ => (AccountStage::Open, AccountActionView::Use),
    }
}

fn create(email: &str) -> (r: (AccountStage, AccountAction))
    ensures
        (r.0, r.1@) == create_spec(email@),
{
    (
        AccountStage::Creating,
        AccountAction::Create {
            contact: account_contact(email),
            terms_agreed: true,
            only_existing: false,
        },
    )
}

/// Starts the opening of an account, with the cached credentials if there are any.
pub fn account_start(found: Option<AccountCredentials>, email: &str) -> (r: (
    AccountStage,
    AccountAction,
))
    ensures
        (r.0, r.1@) == account_start_spec(found, email@),
{
    match found {
        Some(credentials) => (AccountStage::Trying, AccountAction::TryCached(credentials)),
        None => create(email),
    }
}

/// Starts the opening of an account for an address. `cached` is what the cache file holds, if
/// it could be read.
pub fn open_account(cached: Option<&str>, email: &str) -> (r: (AccountStage, AccountAction))
    ensures
        (r.0, r.1@) == account_start_spec(
            match cached {
                Some(text) => credentials_in(text@),
                None => None,
            },
            email@,
        ),
{
    let found: Option<AccountCredentials> = match cached {
        Some(text) => read_credentials(text),
        None => None,
    };
    account_start(found, email)
}

/// Goes on when the new credentials were written down, or could not be.
pub fn cache_credentials(written: Result<String, String>) -> (r: (AccountStage, AccountAction))
    ensures
        (r.0, r.1@) == cache_spec(text_view(written)),
{
    match written {
        Ok(text) => (
            AccountStage::Caching,
            AccountAction::Cache { path: account_path().to_owned(), text },
        ),
        Err(e) => (AccountStage::Failed, AccountAction::Fail(e)),
    }
}

/// Goes on with the opening of an account after an event. What is cached of a new account is
/// what its credentials are read out of again.
pub fn account_step(stage: AccountStage, event: AccountEvent, email: &str) -> (r: (
    AccountStage,
    AccountAction,
))
    requires
        account_expects(stage, event),
    ensures
        (r.0, r.1@) == account_step_spec(stage, event, email@),
        match (event, r.1@) {
            (
                AccountEvent::Created(credentials),
                AccountActionView::Cache { path, text },
            ) => credentials_in(text) == Some(credentials),
            _ => true,
        },
{
    match event {
        AccountEvent::Tried(ok) => if ok {
            (AccountStage::Open, AccountAction::Use)
        } else {
            create(email)
        },
        AccountEvent::Created(credentials) => cache_credentials(write_credentials(&credentials)),
        AccountEvent::Cached(_) => (AccountStage::Open, AccountAction::Use),
    }
}

/// Cached credentials that are accepted are used as they are. In every other case a new
/// account is created, for the address and with the terms agreed to; where its credentials
/// can be written down they are cached if that is possible, and the account is used.
pub proof fn account_is_opened(
    found: Option<AccountCredentials>,
    created: AccountCredentials,
    email: Seq<char>,
    cached: bool,
)
    ensures
        found is Some ==> account_start_spec(found, email) == (
            AccountStage::Trying,
            AccountActionView::TryCached(found->0),
        ) && account_step_spec(AccountStage::Trying, AccountEvent::Tried(true), email) == (
            AccountStage::Open,
            AccountActionView::Use,
        ),
        ({
            let creating = if found is Some {
                account_step_spec(AccountStage::Trying, AccountEvent::Tried(false), email)
            } else {
                account_start_spec(found, email)
            };
            let caching = account_step_spec(creating.0, AccountEvent::Created(created), email);
            &&& creating.1 == (AccountActionView::Create {
                contact: "mailto:"@ + email,
                terms_agreed: true,
                only_existing: false,
            })
            &&& (credentials_json(created) matches Ok(text) ==> caching.1 == (
            AccountActionView::Cache { path: account_path_spec(), text }) && account_step_spec(
                caching.0,
                AccountEvent::Cached(cached),
                email,
            ) == (AccountStage::Open, AccountActionView::Use))
            &&& (credentials_json(created) matches Err(e) ==> caching == (
                AccountStage::Failed,
                AccountActionView::Fail(e),
            ))
        }),
{
}

/// Accounts are cached in one file.
pub proof fn accounts_have_one_cache()
    ensures
        account_path_spec() == "/tmp/loom_acme_account.json"@,
{
}

/// What is said of an action is all that is in it.
pub proof fn account_actions_keep_everything(
    credentials: AccountCredentials,
    contact: String,
    path: String,
    text: String,
    terms_agreed: bool,
    only_existing: bool,
)
    ensures
        AccountAction::TryCached(credentials)@ == AccountActionView::TryCached(credentials),
        (AccountAction::Create { contact, terms_agreed, only_existing })@ == (
        AccountActionView::Create { contact: contact@, terms_agreed, only_existing }),
        (AccountAction::Cache { path, text })@ == (AccountActionView::Cache {
            path: path@,
            text: text@,
        }),
        AccountAction::Fail(text)@ == AccountActionView::Fail(text@),
        text_view(Ok(text)) == Ok::<Seq<char>, Seq<char>>(text@),
        text_view(Err(text)) == Err::<Seq<char>, Seq<char>>(text@),
{
}

/// Every stage goes on with whatever comes of its own action.
pub proof fn every_account_outcome_is_expected(created: AccountCredentials, ok: bool)
    ensures
        account_expects(AccountStage::Trying, AccountEvent::Tried(ok)),
        account_expects(AccountStage::Creating, AccountEvent::Created(created)),
        account_expects(AccountStage::Caching, AccountEvent::Cached(ok)),
{
}

} // verus!
