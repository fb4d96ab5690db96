//! The onboarding orchestrator's decisions: which action each dashboard-
//! reported step demands, the request payloads, and the post-onboarding
//! setup phases.
//!
//! The dashboard itself is authoritative for the current step, so the driver
//! re-queries it on every iteration and dispatches through
//! [`onboarding_action`]; nothing here tracks a step locally.

use vstd::prelude::*;

use crate::codec::{json_bool, json_string};
use crate::codec::dec_digits;
use crate::text::{chars_vec, str_eq, string_from_chars};

verus! {

/// The dashboard's answer to a step query.
#[derive(Debug)]
pub struct OnboardingStep {
    pub current: String,
    pub previous: Option<String>,
}

/// What the orchestrator does for a reported step.
#[derive(Debug, Clone, PartialEq, Eq, Structural)]
pub enum OnboardingAction {
    /// The terminal step: stop, nothing left to do.
    Finish,
    /// A begin or unrecognized step: request the next step, no other side
    /// effect.
    Advance,
    /// The administrator-creation step: submit the configured credentials.
    CreateUser,
    /// The server-settings step: submit the configured toggles.
    ConfigureSettings,
}

/// The action each step name demands: the terminal step stops the machine,
/// the two side-effecting steps are named exactly, and every other step —
/// the begin step and any unknown one — is advanced unconditionally.
pub open spec fn action_for(step: Seq<char>) -> OnboardingAction {
    if step == "finish"@ {
        OnboardingAction::Finish
    } else if step == "user"@ {
        OnboardingAction::CreateUser
    } else if step == "settings"@ {
        OnboardingAction::ConfigureSettings
    } else {
        OnboardingAction::Advance
    }
}

/// Decide what to do for the step the dashboard reported.
pub fn onboarding_action(step: &OnboardingStep) -> (a: OnboardingAction)
    ensures
        a == action_for(step.current@),
{
    if str_eq(step.current.as_str(), "finish") {
        OnboardingAction::Finish
    } else if str_eq(step.current.as_str(), "user") {
        OnboardingAction::CreateUser
    } else if str_eq(step.current.as_str(), "settings") {
        OnboardingAction::ConfigureSettings
    } else {
        OnboardingAction::Advance
    }
}

/// A terminal step is quiescent: once the dashboard reports the terminal
/// step the orchestrator stops at once, and the side-effecting calls —
/// administrator creation and settings submission — happen only on their
/// named steps, so a second invocation after completion performs none.
pub proof fn lemma_terminal_step_quiescent(step: Seq<char>)
    ensures
        step == "finish"@ ==> action_for(step) == OnboardingAction::Finish,
        action_for(step) == OnboardingAction::CreateUser ==> step == "user"@,
        action_for(step) == OnboardingAction::ConfigureSettings ==> step == "settings"@,
{
}

/// Administrator credentials from the branding input.
#[derive(Debug)]
pub struct AdminCredentials {
    pub username: String,
    pub password: String,
}

/// Analytics toggles from the branding input.
#[derive(Debug, Clone, PartialEq, Eq, Structural)]
pub struct AnalyticsSettings {
    pub enable_general: bool,
    pub enable_widget_data: bool,
    pub enable_integration_data: bool,
    pub enable_user_data: bool,
}

/// Crawling and indexing toggles from the branding input.
#[derive(Debug, Clone, PartialEq, Eq, Structural)]
pub struct CrawlingSettings {
    pub no_index: bool,
    pub no_follow: bool,
    pub no_translate: bool,
    pub no_sitelinks_search_box: bool,
}

/// Board shape from the branding input.
#[derive(Debug)]
pub struct BoardSettings {
    pub name: String,
    pub column_count: u64,
    pub is_public: bool,
}

/// The fixed entry tile from the branding input.
#[derive(Debug)]
pub struct TileSettings {
    pub enabled: bool,
    pub name: String,
    pub description: String,
    pub icon_url: String,
    pub href: String,
    pub width: u64,
    pub height: u64,
    pub x_offset: u64,
    pub y_offset: u64,
}

/// The administrator-creation request body, with the password duplicated
/// into the confirmation field.
pub open spec fn init_user_json(username: Seq<char>, password: Seq<char>) -> Seq<char> {
    "{\"json\":{\"username\":"@ + json_string(username) + ",\"password\":"@ + json_string(
        password,
    ) + ",\"confirmPassword\":"@ + json_string(password) + "}}"@
}

/// Render the administrator-creation request body.
pub fn init_user_payload(credentials: &AdminCredentials) -> (r: String)
    ensures
        r@ == init_user_json(credentials.username@, credentials.password@),
{
    let mut out: Vec<char> = Vec::new();
    crate::codec::write_lit(&mut out, "{\"json\":{\"username\":");
    crate::codec::write_string(&mut out, credentials.username.as_str());
    crate::codec::write_lit(&mut out, ",\"password\":");
    crate::codec::write_string(&mut out, credentials.password.as_str());
    crate::codec::write_lit(&mut out, ",\"confirmPassword\":");
    crate::codec::write_string(&mut out, credentials.password.as_str());
    crate::codec::write_lit(&mut out, "}}");
    proof {
        assert(out@ =~= init_user_json(credentials.username@, credentials.password@));
    }
    string_from_chars(&out)
}

/// The server-settings request body: the eight configured toggles.
pub open spec fn settings_json(a: AnalyticsSettings, c: CrawlingSettings) -> Seq<char> {
    "{\"json\":{\"analytics\":{\"enableGeneral\":"@ + json_bool(a.enable_general)
        + ",\"enableWidgetData\":"@ + json_bool(a.enable_widget_data)
        + ",\"enableIntegrationData\":"@ + json_bool(a.enable_integration_data)
        + ",\"enableUserData\":"@ + json_bool(a.enable_user_data)
        + "},\"crawlingAndIndexing\":{\"noIndex\":"@ + json_bool(c.no_index)
        + ",\"noFollow\":"@ + json_bool(c.no_follow) + ",\"noTranslate\":"@ + json_bool(
        c.no_translate,
    ) + ",\"noSiteLinksSearchBox\":"@ + json_bool(c.no_sitelinks_search_box) + "}}}"@
}

/// Append a boolean token.
fn write_bool(out: &mut Vec<char>, b: bool)
    ensures
        final(out)@ == old(out)@ + json_bool(b),
{
    if b {
        crate::codec::write_lit(out, "true");
        proof {
            assert("true"@ =~= json_bool(true)) by {
                reveal_strlit("true");
            }
        }
    } else {
        crate::codec::write_lit(out, "false");
        proof {
            assert("false"@ =~= json_bool(false)) by {
                reveal_strlit("false");
            }
        }
    }
}

/// Render the server-settings request body.
pub fn settings_payload(analytics: &AnalyticsSettings, crawling: &CrawlingSettings) -> (r: String)
    ensures
        r@ == settings_json(*analytics, *crawling),
{
    let mut out: Vec<char> = Vec::new();
    crate::codec::write_lit(&mut out, "{\"json\":{\"analytics\":{\"enableGeneral\":");
    write_bool(&mut out, analytics.enable_general);
    crate::codec::write_lit(&mut out, ",\"enableWidgetData\":");
    write_bool(&mut out, analytics.enable_widget_data);
    crate::codec::write_lit(&mut out, ",\"enableIntegrationData\":");
    write_bool(&mut out, analytics.enable_integration_data);
    crate::codec::write_lit(&mut out, ",\"enableUserData\":");
    write_bool(&mut out, analytics.enable_user_data);
    crate::codec::write_lit(&mut out, "},\"crawlingAndIndexing\":{\"noIndex\":");
    write_bool(&mut out, crawling.no_index);
    crate::codec::write_lit(&mut out, ",\"noFollow\":");
    write_bool(&mut out, crawling.no_follow);
    crate::codec::write_lit(&mut out, ",\"noTranslate\":");
    write_bool(&mut out, crawling.no_translate);
    crate::codec::write_lit(&mut out, ",\"noSiteLinksSearchBox\":");
    write_bool(&mut out, crawling.no_sitelinks_search_box);
    crate::codec::write_lit(&mut out, "}}}");
    proof {
        assert(out@ =~= settings_json(*analytics, *crawling));
    }
    string_from_chars(&out)
}

/// The board-creation request body.
pub open spec fn create_board_json(name: Seq<char>, column_count: u64, is_public: bool) -> Seq<
    char,
> {
    "{\"json\":{\"name\":"@ + json_string(name) + ",\"columnCount\":"@ + dec_digits(column_count as int) + ",\"isPublic\":"@ + json_bool(is_public) + "}}"@
}

/// Render the board-creation request body.
pub fn create_board_payload(board: &BoardSettings) -> (r: String)
    ensures
        r@ == create_board_json(board.name@, board.column_count, board.is_public),
{
    let mut out: Vec<char> = Vec::new();
    crate::codec::write_lit(&mut out, "{\"json\":{\"name\":");
    crate::codec::write_string(&mut out, board.name.as_str());
    crate::codec::write_lit(&mut out, ",\"columnCount\":");
    crate::codec::write_u64(&mut out, board.column_count);
    crate::codec::write_lit(&mut out, ",\"isPublic\":");
    write_bool(&mut out, board.is_public);
    crate::codec::write_lit(&mut out, "}}");
    proof {
        assert(out@ =~= create_board_json(board.name@, board.column_count, board.is_public));
    }
    string_from_chars(&out)
}

/// The app-creation request body for the entry tile; it never pings.
pub open spec fn create_app_json(tile: TileSettings) -> Seq<char> {
    "{\"json\":{\"name\":"@ + json_string(tile.name@) + ",\"description\":"@ + json_string(
        tile.description@,
    ) + ",\"iconUrl\":"@ + json_string(tile.icon_url@) + ",\"href\":"@ + json_string(tile.href@)
        + ",\"pingUrl\":null}}"@
}

/// Render the app-creation request body for the entry tile.
pub fn create_app_payload(tile: &TileSettings) -> (r: String)
    ensures
        r@ == create_app_json(*tile),
{
    let mut out: Vec<char> = Vec::new();
    crate::codec::write_lit(&mut out, "{\"json\":{\"name\":");
    crate::codec::write_string(&mut out, tile.name.as_str());
    crate::codec::write_lit(&mut out, ",\"description\":");
    crate::codec::write_string(&mut out, tile.description.as_str());
    crate::codec::write_lit(&mut out, ",\"iconUrl\":");
    crate::codec::write_string(&mut out, tile.icon_url.as_str());
    crate::codec::write_lit(&mut out, ",\"href\":");
    crate::codec::write_string(&mut out, tile.href.as_str());
    crate::codec::write_lit(&mut out, ",\"pingUrl\":null}}");
    proof {
        assert(out@ =~= create_app_json(*tile));
    }
    string_from_chars(&out)
}

/// Append a string token or `null` for an absent value.
fn write_opt_string(out: &mut Vec<char>, s: &Option<String>)
    ensures
        final(out)@ == old(out)@ + (match s {
            Some(v) => json_string(v@),
            None => "null"@,
        }),
{
    match s {
        Some(v) => crate::codec::write_string(out, v.as_str()),
        None => crate::codec::write_lit(out, "null"),
    }
}

/// The app-creation request body for a discovered container: absent
/// description and icon become `null`, the target URL is the link, and it
/// never pings.
pub open spec fn app_create_json(a: crate::discovery::AppModel) -> Seq<char> {
    "{\"json\":{\"name\":"@ + json_string(a.name) + ",\"description\":"@ + (match a.description {
        Some(d) => json_string(d),
        None => "null"@,
    }) + ",\"iconUrl\":"@ + (match a.icon_url {
        Some(i) => json_string(i),
        None => "null"@,
    }) + ",\"href\":"@ + json_string(a.url) + ",\"pingUrl\":null}}"@
}

/// Render the app-creation request body for a discovered container.
pub fn app_create_payload(app: &crate::discovery::DiscoveredApp) -> (r: String)
    ensures
        r@ == app_create_json(app@),
{
    let mut out: Vec<char> = Vec::new();
    crate::codec::write_lit(&mut out, "{\"json\":{\"name\":");
    crate::codec::write_string(&mut out, app.name.as_str());
    crate::codec::write_lit(&mut out, ",\"description\":");
    write_opt_string(&mut out, &app.description);
    crate::codec::write_lit(&mut out, ",\"iconUrl\":");
    write_opt_string(&mut out, &app.icon_url);
    crate::codec::write_lit(&mut out, ",\"href\":");
    crate::codec::write_string(&mut out, app.url.as_str());
    crate::codec::write_lit(&mut out, ",\"pingUrl\":null}}");
    proof {
        assert(out@ =~= app_create_json(app@));
    }
    string_from_chars(&out)
}

/// The save-board request body that places the entry tile: the board's
/// existing sections are spliced back in unchanged, and one app item is laid
/// out with the configured placement. The tile's item identifier is the app
/// identifier behind a fixed prefix.
pub open spec fn save_board_json(
    board_id: Seq<char>,
    sections: Seq<char>,
    app_id: Seq<char>,
    layout_id: Seq<char>,
    section_id: Seq<char>,
    tile: TileSettings,
) -> Seq<char> {
    "{\"json\":{\"id\":"@ + json_string(board_id) + ",\"sections\":"@ + sections
        + ",\"items\":[{\"id\":"@ + json_string("cockpit-"@ + app_id) + ",\"kind\":\"app\",\"appId\":"@
        + json_string(app_id) + ",\"options\":{},\"layouts\":[{\"layoutId\":"@ + json_string(
        layout_id,
    ) + ",\"sectionId\":"@ + json_string(section_id) + ",\"width\":"@ + dec_digits(
        tile.width as int,
    ) + ",\"height\":"@ + dec_digits(tile.height as int) + ",\"xOffset\":"@ + dec_digits(
        tile.x_offset as int,
    ) + ",\"yOffset\":"@ + dec_digits(tile.y_offset as int)
        + "}],\"integrationIds\":[],\"advancedOptions\":{\"customCssClasses\":[]}}],\"integrations\":[]}}"@
}

/// Render the save-board request body; `sections_json` is the board's
/// current section list, already in its wire form.
pub fn save_board_payload(
    board_id: &str,
    sections_json: &str,
    app_id: &str,
    layout_id: &str,
    section_id: &str,
    tile: &TileSettings,
) -> (r: String)
    ensures
        r@ == save_board_json(
            board_id@,
            sections_json@,
            app_id@,
            layout_id@,
            section_id@,
            *tile,
        ),
{
    let mut item_id: Vec<char> = Vec::new();
    crate::codec::write_lit(&mut item_id, "cockpit-");
    crate::codec::write_lit(&mut item_id, app_id);
    let item_id_str = string_from_chars(&item_id);

    let mut out: Vec<char> = Vec::new();
    crate::codec::write_lit(&mut out, "{\"json\":{\"id\":");
    crate::codec::write_string(&mut out, board_id);
    crate::codec::write_lit(&mut out, ",\"sections\":");
    crate::codec::write_lit(&mut out, sections_json);
    crate::codec::write_lit(&mut out, ",\"items\":[{\"id\":");
    crate::codec::write_string(&mut out, item_id_str.as_str());
    crate::codec::write_lit(&mut out, ",\"kind\":\"app\",\"appId\":");
    crate::codec::write_string(&mut out, app_id);
    crate::codec::write_lit(&mut out, ",\"options\":{},\"layouts\":[{\"layoutId\":");
    crate::codec::write_string(&mut out, layout_id);
    crate::codec::write_lit(&mut out, ",\"sectionId\":");
    crate::codec::write_string(&mut out, section_id);
    crate::codec::write_lit(&mut out, ",\"width\":");
    crate::codec::write_u64(&mut out, tile.width);
    crate::codec::write_lit(&mut out, ",\"height\":");
    crate::codec::write_u64(&mut out, tile.height);
    crate::codec::write_lit(&mut out, ",\"xOffset\":");
    crate::codec::write_u64(&mut out, tile.x_offset);
    crate::codec::write_lit(&mut out, ",\"yOffset\":");
    crate::codec::write_u64(&mut out, tile.y_offset);
    crate::codec::write_lit(
        &mut out,
        "}],\"integrationIds\":[],\"advancedOptions\":{\"customCssClasses\":[]}}],\"integrations\":[]}}",
    );
    proof {
        assert(out@ =~= save_board_json(
            board_id@,
            sections_json@,
            app_id@,
            layout_id@,
            section_id@,
            *tile,
        ));
    }
    string_from_chars(&out)
}

/// The set-home-board request body.
pub open spec fn set_home_board_json(board_id: Seq<char>) -> Seq<char> {
    "{\"json\":{\"id\":"@ + json_string(board_id) + "}}"@
}

/// Render the set-home-board request body.
pub fn set_home_board_payload(board_id: &str) -> (r: String)
    ensures
        r@ == set_home_board_json(board_id@),
{
    let mut out: Vec<char> = Vec::new();
    crate::codec::write_lit(&mut out, "{\"json\":{\"id\":");
    crate::codec::write_string(&mut out, board_id);
    crate::codec::write_lit(&mut out, "}}");
    proof {
        assert(out@ =~= set_home_board_json(board_id@));
    }
    string_from_chars(&out)
}

/// The color-scheme request body.
pub open spec fn color_scheme_json(scheme: Seq<char>) -> Seq<char> {
    "{\"json\":{\"colorScheme\":"@ + json_string(scheme) + "}}"@
}

/// Render the color-scheme request body.
pub fn color_scheme_payload(scheme: &str) -> (r: String)
    ensures
        r@ == color_scheme_json(scheme@),
{
    let mut out: Vec<char> = Vec::new();
    crate::codec::write_lit(&mut out, "{\"json\":{\"colorScheme\":");
    crate::codec::write_string(&mut out, scheme);
    crate::codec::write_lit(&mut out, "}}");
    proof {
        assert(out@ =~= color_scheme_json(scheme@));
    }
    string_from_chars(&out)
}

/// What `urlencoding::encode` returns for a given text; the result depends
/// on the text alone.
pub uninterp spec fn url_encoded(s: Seq<char>) -> Seq<char>;

/// Relies on `urlencoding::encode`: percent-encodes every byte outside the
/// unreserved set, a pure function of its argument.
#[verifier::external_body]
fn url_encode(s: &str) -> (r: String)
    ensures
        r@ == url_encoded(s@),
{
    urlencoding::encode(s).into_owned()
}

/// The board-lookup query document for a board name.
pub open spec fn board_query_json(name: Seq<char>) -> Seq<char> {
    "{\"json\":{\"name\":"@ + json_string(name) + "}}"@
}

/// The board-lookup URL: the query document, percent-encoded, behind the
/// lookup endpoint of the given base URL.
pub fn board_by_name_url(base_url: &str, name: &str) -> (r: String)
    ensures
        r@ == base_url@ + "/api/trpc/board.getBoardByName?input="@ + url_encoded(
            board_query_json(name@),
        ),
{
    let mut query: Vec<char> = Vec::new();
    crate::codec::write_lit(&mut query, "{\"json\":{\"name\":");
    crate::codec::write_string(&mut query, name);
    crate::codec::write_lit(&mut query, "}}");
    proof {
        assert(query@ =~= board_query_json(name@));
    }
    let encoded = url_encode(string_from_chars(&query).as_str());
    let mut out: Vec<char> = Vec::new();
    crate::codec::write_lit(&mut out, base_url);
    crate::codec::write_lit(&mut out, "/api/trpc/board.getBoardByName?input=");
    crate::codec::write_lit(&mut out, encoded.as_str());
    proof {
        assert(out@ =~= base_url@ + "/api/trpc/board.getBoardByName?input="@ + url_encoded(
            board_query_json(name@),
        ));
    }
    string_from_chars(&out)
}

/// A base URL with every trailing slash removed.
pub open spec fn trimmed_base(s: Seq<char>) -> Seq<char>
    decreases s.len(),
{
    if s.len() > 0 && s.last() == '/' {
        trimmed_base(s.drop_last())
    } else {
        s
    }
}

/// Normalize a configured base URL by dropping trailing slashes.
pub fn trim_base_url(base: &str) -> (r: String)
    ensures
        r@ == trimmed_base(base@),
{
    let cs = chars_vec(base);
    let mut n = cs.len();
    proof {
        assert(base@.take(n as int) =~= base@);
    }
    while n > 0 && cs[n - 1] == '/'
        invariant
            n <= cs.len(),
            cs@ == base@,
            trimmed_base(base@) == trimmed_base(base@.take(n as int)),
        decreases n,
    {
        proof {
            assert(base@.take(n as int).last() == base@[n - 1]);
            assert(base@.take(n as int).drop_last() =~= base@.take(n as int - 1));
        }
        n -= 1;
    }
    let mut out: Vec<char> = Vec::new();
    let mut i: usize = 0;
    while i < n
        invariant
            i <= n <= cs.len(),
            cs@ == base@,
            out@ == base@.take(n as int).take(i as int),
        decreases n - i,
    {
        out.push(cs[i]);
        i += 1;
        proof {
            assert(base@.take(n as int).take(i as int) =~= base@.take(n as int).take(
                i as int - 1,
            ).push(base@[i as int - 1]));
        }
    }
    proof {
        assert(base@.take(n as int).take(n as int) =~= base@.take(n as int));
        if n == cs.len() {
            assert(base@.take(n as int) =~= base@);
        }
    }
    string_from_chars(&out)
}

/// The phases of the post-onboarding board setup, in driving order.
#[derive(Debug, Clone, PartialEq, Eq, Structural)]
pub enum SetupPhase {
    /// Authenticate: the token handshake and the credentialed session.
    Login,
    /// Look the configured board up by name.
    FindBoard,
    /// Create the board; reached only when the lookup found none.
    CreateBoard,
    /// Ensure the fixed entry tile exists on the board.
    EnsureTile,
    /// Make the board the home board.
    SetHome,
    /// Apply the configured color scheme.
    SetTheme,
    /// Every phase was driven; nothing is left to do.
    Done,
    /// A phase the run cannot go on without has failed; the next invocation
    /// retries from the start.
    Failed,
}

/// How one phase outcome moves the setup on. Authentication failure and a
/// failed board creation are fatal — nothing later is feasible without a
/// session or a board — while the idempotent phases after them (tile, home
/// board, color scheme) are driven on even after a failure, since each is
/// independently safe to retry later. A found board skips creation, and the
/// tile phase is skipped when no entry tile is configured.
pub open spec fn setup_transition(
    phase: SetupPhase,
    succeeded: bool,
    tile_enabled: bool,
) -> SetupPhase {
    match phase {
        SetupPhase::Login => if succeeded {
            SetupPhase::FindBoard
        } else {
            SetupPhase::Failed
        },
        SetupPhase::FindBoard => if succeeded {
            if tile_enabled {
                SetupPhase::EnsureTile
            } else {
                SetupPhase::SetHome
            }
        } else {
            SetupPhase::CreateBoard
        },
        SetupPhase::CreateBoard => if succeeded {
            if tile_enabled {
                SetupPhase::EnsureTile
            } else {
                SetupPhase::SetHome
            }
        } else {
            SetupPhase::Failed
        },
        SetupPhase::EnsureTile => SetupPhase::SetHome,
        SetupPhase::SetHome => SetupPhase::SetTheme,
        SetupPhase::SetTheme => SetupPhase::Done,
        SetupPhase::Done => SetupPhase::Done,
        SetupPhase::Failed => SetupPhase::Failed,
    }
}

/// One run of the post-onboarding setup: the phase the driver is in, and
/// whether every outcome so far succeeded.
#[derive(Debug)]
pub struct SetupRun {
    pub phase: SetupPhase,
    pub all_ok: bool,
}

impl SetupRun {
    /// A run starts by authenticating, with nothing failed yet.
    pub fn new() -> (r: SetupRun)
        ensures
            r.phase == SetupPhase::Login,
            r.all_ok,
    {
        SetupRun { phase: SetupPhase::Login, all_ok: true }
    }

    /// Fold the outcome of the current phase in. A board lookup that found
    /// nothing is reported as an unsuccessful outcome — it moves the run to
    /// creation — but it is an expected answer, not a failure, so it alone
    /// never blocks completion.
    pub fn step(&mut self, succeeded: bool, tile_enabled: bool)
        ensures
            final(self).phase == setup_transition(old(self).phase, succeeded, tile_enabled),
            final(self).all_ok == (old(self).all_ok && (succeeded || old(self).phase
                == SetupPhase::FindBoard)),
    {
        let next = match self.phase {
            SetupPhase::Login => if succeeded {
                SetupPhase::FindBoard
            } else {
                SetupPhase::Failed
            },
            SetupPhase::FindBoard => if succeeded {
                if tile_enabled {
                    SetupPhase::EnsureTile
                } else {
                    SetupPhase::SetHome
                }
            } else {
                SetupPhase::CreateBoard
            },
            SetupPhase::CreateBoard => if succeeded {
                if tile_enabled {
                    SetupPhase::EnsureTile
                } else {
                    SetupPhase::SetHome
                }
            } else {
                SetupPhase::Failed
            },
            SetupPhase::EnsureTile => SetupPhase::SetHome,
            SetupPhase::SetHome => SetupPhase::SetTheme,
            SetupPhase::SetTheme => SetupPhase::Done,
            SetupPhase::Done => SetupPhase::Done,
            SetupPhase::Failed => SetupPhase::Failed,
        };
        let expected_miss = match self.phase {
            SetupPhase::FindBoard => true,
            _ => false,
        };
        self.phase = next;
        self.all_ok = self.all_ok && (succeeded || expected_miss);
    }

    /// Whether the whole setup succeeded, so that the caller may mark
    /// onboarding completed; any failure along the way leaves this false and
    /// the flag unset, and the next invocation retries from the dashboard's
    /// actual current step.
    pub fn complete(&self) -> (r: bool)
        ensures
            r == (self.phase == SetupPhase::Done && self.all_ok),
    {
        let done = match self.phase {
            SetupPhase::Done => true,
            _ => false,
        };
        done && self.all_ok
    }
}

} // verus!
