//! What is answered to requests for playlists and guides.
use crate::config::{
    input_by_name, AppConfig, ConfigInput, ConfigInputFlags, ConfigInputOptions, ConfigTarget, InputType,
    SpecConfig, SpecInput, SpecInputOptions, SpecProvider, SpecTarget, TargetType,
};
use crate::epg_load::EpgLoadError;
use crate::epg_merge::{merge_prioritized_channels, merged_channels, source_views};
use crate::external::{parse_url_scheme, url_scheme};
use crate::model::{view_option, views, EpgChannel};
use crate::numbers::{decimal, parse_u32, to_decimal, u32_value};
use crate::provider::{resolve_provider_url_for_request, url_for_request};
use crate::requests::{
    stream_type, PlaylistEpgRequest, PlaylistRequest, PlaylistUrlResolveRequest, ProxyType,
    SpecEpgRequest, SpecRequest, XtreamCluster,
};
use crate::text::{from_chars, same_text, to_chars};
use vstd::prelude::*;
use vstd::string::*;

verus! {

/// The name of an input that stands for a playlist that is not configured.
pub const M3U_REQUEST_NAME: &'static str = "m3u_req";

/// The name of an input that stands for an account that is not configured.
pub const XTREAM_REQUEST_NAME: &'static str = "xc_req";

/// Hours after which the live streams of such an input are probed again.
pub const REQUEST_PROBE_INTERVAL_HOURS: u32 = 120;

/// Seconds between two requests to a provider.
#[derive(Clone, Copy, PartialEq, Eq, Structural, Debug)]
pub struct RequestDelays {
    pub resolve_delay: u16,
    pub probe_delay: u16,
}

/// The options of an input that stands for a request.
pub open spec fn request_options(delays: RequestDelays) -> SpecInputOptions {
    SpecInputOptions {
        flags: ConfigInputFlags { xtream_live_stream_use_prefix: true, resolve_background: true },
        resolve_delay: delays.resolve_delay,
        probe_delay: delays.probe_delay,
        probe_live_interval_hours: REQUEST_PROBE_INTERVAL_HOURS,
        resolve_filter: None,
        probe_filter: None,
    }
}

/// The input that stands for a playlist that is not configured.
pub open spec fn m3u_input(url: Seq<char>, delays: RequestDelays) -> SpecInput {
    SpecInput {
        id: 0,
        name: M3U_REQUEST_NAME@,
        input_type: InputType::M3u,
        url,
        username: None,
        password: None,
        enabled: true,
        options: Some(request_options(delays)),
        epg: None,
        provider_configs: Seq::empty(),
    }
}

/// The input that stands for an account that is not configured.
pub open spec fn xtream_input(
    username: Seq<char>,
    password: Seq<char>,
    host: Seq<char>,
    delays: RequestDelays,
) -> SpecInput {
    SpecInput {
        name: XTREAM_REQUEST_NAME@,
        input_type: InputType::Xtream,
        username: Some(username),
        password: Some(password),
        ..m3u_input(host, delays)
    }
}

/// An input that stands for a request.
fn create_request_input(
    name: &str,
    input_type: InputType,
    url: &str,
    delays: RequestDelays,
) -> (input: ConfigInput)
    ensures
        input@ == (SpecInput { name: name@, input_type, ..m3u_input(url@, delays) }),
{
    let input = ConfigInput {
        id: 0,
        name: name.to_owned(),
        input_type,
        url: url.to_owned(),
        username: None,
        password: None,
        enabled: true,
        options: Some(
            ConfigInputOptions {
                flags: ConfigInputFlags {
                    xtream_live_stream_use_prefix: true,
                    resolve_background: true,
                },
                resolve_delay: delays.resolve_delay,
                probe_delay: delays.probe_delay,
                probe_live_interval_hours: REQUEST_PROBE_INTERVAL_HOURS,
                resolve_filter: None,
                probe_filter: None,
            },
        ),
        epg: None,
        provider_configs: Vec::new(),
    };
    assert(views(input.provider_configs@) =~= Seq::<SpecProvider>::empty());
    input
}

/// The input that stands for a playlist that is not configured.
pub fn create_config_input_for_m3u(url: &str, delays: RequestDelays) -> (input: ConfigInput)
    ensures
        input@ == m3u_input(url@, delays),
{
    create_request_input(M3U_REQUEST_NAME, InputType::M3u, url, delays)
}

/// The input that stands for an account that is not configured.
pub fn create_config_input_for_xtream(
    username: &str,
    password: &str,
    host: &str,
    delays: RequestDelays,
) -> (input: ConfigInput)
    ensures
        input@ == xtream_input(username@, password@, host@, delays),
{
    let mut input = create_request_input(XTREAM_REQUEST_NAME, InputType::Xtream, host, delays);
    input.username = Some(username.to_owned());
    input.password = Some(password.to_owned());
    input
}

/// What stands before the token in the URL of a stream.
pub const TOKEN_PATH: &'static str = "/token/";

/// What parts the segments of a path.
pub const PATH_SEPARATOR: &'static str = "/";

/// The URL at which the web player finds a stream.
pub open spec fn webplayer_url(
    base_url: Seq<char>,
    access_token: Seq<char>,
    target_id: u16,
    virtual_id: u32,
    cluster: XtreamCluster,
) -> Seq<char> {
    base_url + TOKEN_PATH@ + access_token + PATH_SEPARATOR@ + decimal(target_id as nat)
        + PATH_SEPARATOR@ + stream_type(cluster) + PATH_SEPARATOR@ + decimal(virtual_id as nat)
}

/// Builds the URL at which the web player finds a stream.
pub fn build_playlist_webplayer_url(
    base_url: &str,
    access_token: &str,
    target_id: u16,
    virtual_id: u32,
    cluster: XtreamCluster,
) -> (url: String)
    ensures
        url@ == webplayer_url(base_url@, access_token@, target_id, virtual_id, cluster),
{
    let mut url = base_url.to_owned();
    url.append(TOKEN_PATH);
    url.append(access_token);
    url.append(PATH_SEPARATOR);
    url.append(to_decimal(target_id as u64).as_str());
    url.append(PATH_SEPARATOR);
    url.append(cluster.as_stream_type());
    url.append(PATH_SEPARATOR);
    url.append(to_decimal(virtual_id as u64).as_str());
    url
}

/// The server that the web player uses unless another one is configured.
pub const DEFAULT_SERVER: &'static str = "default";

/// The name of the server that the web player uses.
pub fn player_server_name(player_server: Option<&str>) -> (name: &str)
    ensures
        name@ == match player_server {
            Some(server) => server@,
            None => DEFAULT_SERVER@,
        },
{
    match player_server {
        Some(server) => server,
        None => DEFAULT_SERVER,
    }
}

/// The URL at which the web player finds a stream, if there is a server.
pub fn playlist_webplayer(
    base_url: Option<&str>,
    access_token: &str,
    target_id: u16,
    virtual_id: u32,
    cluster: XtreamCluster,
) -> (url: Result<String, Status>)
    ensures
        match url {
            Ok(text) => base_url is Some && text@ == webplayer_url(
                base_url->0@,
                access_token@,
                target_id,
                virtual_id,
                cluster,
            ),
            Err(status) => base_url is None && status is ServiceUnavailable,
        },
{
    match base_url {
        Some(base) => Ok(
            build_playlist_webplayer_url(base, access_token, target_id, virtual_id, cluster),
        ),
        None => Err(Status::ServiceUnavailable),
    }
}

/// What a request for a URL leads to.
pub enum UrlAnswer {
    /// The URL of a stream, for which the web player needs a server and a token.
    Webplayer { target_id: u16, virtual_id: u32, cluster: XtreamCluster },
    /// A URL.
    Url(String),
}

/// Decides what a request for a URL leads to.
pub fn playlist_resolve_url(app_config: &AppConfig, request: PlaylistUrlResolveRequest) -> (answer:
    UrlAnswer)
    ensures
        match request {
            PlaylistUrlResolveRequest::Webplayer { target_id, virtual_id, cluster } => answer == (
            UrlAnswer::Webplayer { target_id, virtual_id, cluster }),
            PlaylistUrlResolveRequest::Provider { playlist_request, url } => answer is Url
                && answer->Url_0@ == url_for_request(app_config@, playlist_request@, url@),
        },
{
    match request {
        PlaylistUrlResolveRequest::Webplayer { target_id, virtual_id, cluster } => {
            UrlAnswer::Webplayer { target_id, virtual_id, cluster }
        },
        PlaylistUrlResolveRequest::Provider { playlist_request, url } => {
            UrlAnswer::Url(
                resolve_provider_url_for_request(app_config, &playlist_request, url.as_str()),
            )
        },
    }
}

/// Merges the channels of several guides, each given with its priority.
pub fn merge_epg_channels(channels_by_source: Vec<(i16, Vec<EpgChannel>)>) -> (channels: Vec<
    EpgChannel,
>)
    ensures
        views(channels@) == merged_channels(source_views(channels_by_source@)),
{
    merge_prioritized_channels(channels_by_source)
}

/// How a request is answered, apart from what is sent with it.
#[derive(Clone, Copy, PartialEq, Eq, Structural, Debug)]
pub enum Status {
    Success,
    Accepted,
    NoContent,
    BadRequest,
    InternalServerError,
    ServiceUnavailable,
}

impl Status {
    /// The status code of HTTP.
    pub fn code(self) -> (code: u16)
        ensures
            code == match self {
                Status::Success => 200u16,
                Status::Accepted => 202,
                Status::NoContent => 204,
                Status::BadRequest => 400,
                Status::InternalServerError => 500,
                Status::ServiceUnavailable => 503,
            },
    {
        match self {
            Status::Success => 200,
            Status::Accepted => 202,
            Status::NoContent => 204,
            Status::BadRequest => 400,
            Status::InternalServerError => 500,
            Status::ServiceUnavailable => 503,
        }
    }
}

/// What is said of a URL that cannot be used.
pub const INVALID_SCHEME: &'static str = "Invalid url scheme; only http/https are allowed";

/// What is said of a guide that cannot be loaded.
pub const EPG_FAILED: &'static str = "Failed to load EPG";

/// The scheme of the web.
pub const HTTP: &'static str = "http";

/// The secure scheme of the web.
pub const HTTPS: &'static str = "https";

/// Whether a scheme is one of the web.
pub open spec fn web_scheme(scheme: Option<Seq<char>>) -> bool {
    scheme == Some(HTTP@) || scheme == Some(HTTPS@)
}

/// Whether a scheme is one of the web.
pub fn is_web_scheme(scheme: Option<&str>) -> (r: bool)
    ensures
        r == web_scheme(view_option(scheme)),
{
    match scheme {
        Some(name) => same_text(name, HTTP) || same_text(name, HTTPS),
        None => false,
    }
}

/// Whether a text is a URL of the web.
pub fn is_web_url(url: &str) -> (r: bool)
    ensures
        r == web_scheme(url_scheme(url@)),
{
    match parse_url_scheme(url) {
        Some(scheme) => is_web_scheme(Some(scheme.as_str())),
        None => is_web_scheme(None),
    }
}

/// Which targets are asked to be updated: all of them if none is named.
pub fn requested_targets(targets: Vec<String>) -> (requested: Option<Vec<String>>)
    ensures
        requested == if targets@.len() == 0 {
            None
        } else {
            Some(targets)
        },
{
    if targets.len() == 0 {
        None
    } else {
        Some(targets)
    }
}

/// What came of a request for an update.
pub enum UpdateOutcome {
    /// It is waiting to be done.
    Queued,
    /// One that covers it is waiting already.
    AlreadyQueued,
    /// Nothing is done any more.
    Closed,
    /// It names a target that there is not; what is said of that.
    InvalidTargets(String),
}

/// How a request for an update is answered, and with which text if it is refused.
pub fn playlist_update(outcome: UpdateOutcome) -> (answer: (Status, Option<String>))
    ensures
        match outcome {
            UpdateOutcome::Queued => answer == (Status::Accepted, None::<String>),
            UpdateOutcome::AlreadyQueued => answer == (Status::Accepted, None::<String>),
            UpdateOutcome::Closed => answer == (Status::ServiceUnavailable, None::<String>),
            UpdateOutcome::InvalidTargets(text) => answer == (Status::BadRequest, Some(text)),
        },
{
    match outcome {
        UpdateOutcome::Queued => (Status::Accepted, None),
        UpdateOutcome::AlreadyQueued => (Status::Accepted, None),
        UpdateOutcome::Closed => (Status::ServiceUnavailable, None),
        UpdateOutcome::InvalidTargets(text) => (Status::BadRequest, Some(text)),
    }
}

/// How a request is answered that leads to nothing.
pub struct Refusal {
    pub status: Status,
    /// What is said of the request, if anything.
    pub text: Option<&'static str>,
}

/// A [`Refusal`] as a mathematical value.
pub struct SpecRefusal {
    pub status: Status,
    pub text: Option<Seq<char>>,
}

impl View for Refusal {
    type V = SpecRefusal;

    open spec fn view(&self) -> SpecRefusal {
        SpecRefusal {
            status: self.status,
            text: match self.text {
                Some(text) => Some(text@),
                None => None,
            },
        }
    }
}

/// How a request is answered whose URL is not one of the web.
pub open spec fn scheme_refusal() -> SpecRefusal {
    SpecRefusal { status: Status::BadRequest, text: Some(INVALID_SCHEME@) }
}

/// How a request is answered for what there is not.
pub open spec fn absence() -> SpecRefusal {
    SpecRefusal { status: Status::NoContent, text: None }
}

/// The answer to a request whose URL is not one of the web.
fn refuse_scheme() -> (refusal: Refusal)
    ensures
        refusal@ == scheme_refusal(),
{
    Refusal { status: Status::BadRequest, text: Some(INVALID_SCHEME) }
}

/// The answer to a request for what there is not.
fn refuse_absent() -> (refusal: Refusal)
    ensures
        refusal@ == absence(),
{
    Refusal { status: Status::NoContent, text: None }
}

/// Where the content of a playlist comes from.
pub enum PlaylistContent<'a> {
    /// From what was made for a target, if there is one.
    Target(Option<&'a ConfigTarget>),
    /// From what was read from an input, if there is one.
    Input(Option<&'a ConfigInput>),
    /// From a provider that is not configured.
    Provider(ConfigInput),
}

/// A [`PlaylistContent`] as a mathematical value.
pub enum SpecContent {
    Target(Option<SpecTarget>),
    Input(Option<SpecInput>),
    Provider(SpecInput),
}

impl<'a> View for PlaylistContent<'a> {
    type V = SpecContent;

    open spec fn view(&self) -> SpecContent {
        match *self {
            PlaylistContent::Target(target) => SpecContent::Target(
                match target {
                    Some(found) => Some(found@),
                    None => None,
                },
            ),
            PlaylistContent::Input(input) => SpecContent::Input(
                match input {
                    Some(found) => Some(found@),
                    None => None,
                },
            ),
            PlaylistContent::Provider(input) => SpecContent::Provider(input@),
        }
    }
}

/// Where the content of the playlist that is asked for comes from. A playlist that is not
/// configured is refused if its URL is not one of the web.
pub open spec fn requested_content(
    config: SpecConfig,
    request: SpecRequest,
    delays: RequestDelays,
) -> Result<SpecContent, SpecRefusal> {
    match request {
        SpecRequest::Target(id) => Ok(SpecContent::Target(config.target(id))),
        SpecRequest::Input(name) => Ok(SpecContent::Input(config.input(name))),
        SpecRequest::CustomXtream { username, password, url } => if web_scheme(url_scheme(url)) {
            Ok(SpecContent::Provider(xtream_input(username, password, url, delays)))
        } else {
            Err(scheme_refusal())
        },
        SpecRequest::CustomM3u(url) => if web_scheme(url_scheme(url)) {
            Ok(SpecContent::Provider(m3u_input(url, delays)))
        } else {
            Err(scheme_refusal())
        },
    }
}

/// Decides where the content of the playlist that is asked for comes from, or how the request is
/// refused.
pub fn playlist_content<'a>(
    app_config: &'a AppConfig,
    playlist_req: &PlaylistRequest,
    delays: RequestDelays,
) -> (content: Result<PlaylistContent<'a>, Refusal>)
    ensures
        match content {
            Ok(found) => requested_content(app_config@, playlist_req@, delays) == Ok::<
                SpecContent,
                SpecRefusal,
            >(found@),
            Err(refusal) => requested_content(app_config@, playlist_req@, delays) == Err::<
                SpecContent,
                SpecRefusal,
            >(refusal@),
        },
{
    match playlist_req {
        PlaylistRequest::Target(id) => Ok(
            PlaylistContent::Target(app_config.get_target_by_id(*id)),
        ),
        PlaylistRequest::Input(name) => Ok(
            PlaylistContent::Input(app_config.get_input_by_name(name.as_str())),
        ),
        PlaylistRequest::CustomXtream(xtream) => {
            if is_web_url(xtream.url.as_str()) {
                Ok(
                    PlaylistContent::Provider(
                        create_config_input_for_xtream(
                            xtream.username.as_str(),
                            xtream.password.as_str(),
                            xtream.url.as_str(),
                            delays,
                        ),
                    ),
                )
            } else {
                Err(refuse_scheme())
            }
        },
        PlaylistRequest::CustomM3u(m3u) => {
            if is_web_url(m3u.url.as_str()) {
                Ok(
                    PlaylistContent::Provider(
                        create_config_input_for_m3u(m3u.url.as_str(), delays),
                    ),
                )
            } else {
                Err(refuse_scheme())
            }
        },
    }
}

/// The target that is asked for, if it has an output that knows series.
pub open spec fn series_target(config: SpecConfig, request: SpecRequest) -> Option<SpecTarget> {
    match request {
        SpecRequest::Target(id) => match config.target(id) {
            Some(target) => if target.output.contains(TargetType::Xtream) {
                Some(target)
            } else {
                None
            },
            None => None,
        },
        _ => None,
    }
}

/// What is needed to tell of a series.
pub struct SeriesInfo<'a> {
    pub target: &'a ConfigTarget,
    /// How the streams reach the user.
    pub proxy: ProxyType,
    pub cluster: XtreamCluster,
}

/// Decides of which target a series is told, and that its streams are series that the user is
/// redirected to; without a target, there is nothing to tell.
pub fn playlist_series_info<'a>(
    app_config: &'a AppConfig,
    playlist_req: &PlaylistRequest,
) -> (info: Result<SeriesInfo<'a>, Status>)
    ensures
        match info {
            Ok(series) => {
                &&& series_target(app_config@, playlist_req@) == Some(series.target@)
                &&& series.proxy == ProxyType::Redirect
                &&& series.cluster == XtreamCluster::Series
            },
            Err(status) => series_target(app_config@, playlist_req@) is None && status
                == Status::NoContent,
        },
{
    match playlist_req {
        PlaylistRequest::Target(id) => match app_config.get_target_by_id(*id) {
            Some(target) => {
                if target.has_output(TargetType::Xtream) {
                    Ok(
                        SeriesInfo {
                            target,
                            proxy: ProxyType::Redirect,
                            cluster: XtreamCluster::Series,
                        },
                    )
                } else {
                    Err(Status::NoContent)
                }
            },
            None => Err(Status::NoContent),
        },
        _ => Err(Status::NoContent),
    }
}

/// What is needed to find an episode.
pub struct EpisodeItem<'a> {
    pub target: &'a ConfigTarget,
    pub virtual_id: u32,
    pub cluster: XtreamCluster,
}

/// Decides which episode is asked for: one of the series of a target, by its number; without
/// both, there is nothing to tell.
pub fn playlist_episode_item<'a>(
    app_config: &'a AppConfig,
    playlist_req: &PlaylistRequest,
    virtual_id: &str,
) -> (item: Result<EpisodeItem<'a>, Status>)
    ensures
        match item {
            Ok(episode) => {
                &&& series_target(app_config@, playlist_req@) == Some(episode.target@)
                &&& u32_value(virtual_id@) == Some(episode.virtual_id)
                &&& episode.cluster == XtreamCluster::Series
            },
            Err(status) => {
                &&& series_target(app_config@, playlist_req@) is None || u32_value(
                    virtual_id@,
                ) is None
                &&& status == Status::NoContent
            },
        },
{
    match playlist_series_info(app_config, playlist_req) {
        Ok(series) => match parse_u32(virtual_id) {
            Some(number) => Ok(
                EpisodeItem {
                    target: series.target,
                    virtual_id: number,
                    cluster: series.cluster,
                },
            ),
            None => Err(Status::NoContent),
        },
        Err(status) => Err(status),
    }
}

/// What is answered once an episode was looked for.
pub fn reply_with_episode<T>(found: Option<T>) -> (reply: Result<T, Status>)
    ensures
        match found {
            Some(item) => reply == Ok::<T, Status>(item),
            None => reply == Err::<T, Status>(Status::NoContent),
        },
{
    match found {
        Some(item) => Ok(item),
        None => Err(Status::NoContent),
    }
}

/// What is answered once the URL that a resource stands for was made out.
pub fn playlist_resource(resource_url: Option<String>) -> (reply: Result<String, Status>)
    ensures
        match resource_url {
            Some(url) => reply == Ok::<String, Status>(url),
            None => reply == Err::<String, Status>(Status::BadRequest),
        },
{
    match resource_url {
        Some(url) => Ok(url),
        None => Err(Status::BadRequest),
    }
}

/// Where a guide comes from.
pub enum PlaylistEpg<'a> {
    /// From what was made for a target.
    Target(&'a ConfigTarget),
    /// From the sources of an input.
    Input(&'a ConfigInput),
    /// From a URL.
    Custom(String),
}

/// A [`PlaylistEpg`] as a mathematical value.
pub enum SpecPlaylistEpg {
    Target(SpecTarget),
    Input(SpecInput),
    Custom(Seq<char>),
}

impl<'a> View for PlaylistEpg<'a> {
    type V = SpecPlaylistEpg;

    open spec fn view(&self) -> SpecPlaylistEpg {
        match *self {
            PlaylistEpg::Target(target) => SpecPlaylistEpg::Target(target@),
            PlaylistEpg::Input(input) => SpecPlaylistEpg::Input(input@),
            PlaylistEpg::Custom(url) => SpecPlaylistEpg::Custom(url@),
        }
    }
}

/// What is answered once the place of the guide of a target was looked for.
pub fn reply_with_target_epg<P>(path: Option<P>) -> (reply: Result<P, Status>)
    ensures
        match path {
            Some(found) => reply == Ok::<P, Status>(found),
            None => reply == Err::<P, Status>(Status::NoContent),
        },
{
    match path {
        Some(found) => Ok(found),
        None => Err(Status::NoContent),
    }
}

/// Where the guide that is asked for comes from. There is no content without such a target or
/// input, and a guide that is not configured is refused if its URL is not one of the web.
pub open spec fn requested_epg(config: SpecConfig, request: SpecEpgRequest) -> Result<
    SpecPlaylistEpg,
    SpecRefusal,
> {
    match request {
        SpecEpgRequest::Target(id) => match config.target(id) {
            Some(target) => Ok(SpecPlaylistEpg::Target(target)),
            None => Err(absence()),
        },
        SpecEpgRequest::Input(name) => match config.input(name) {
            Some(input) => Ok(SpecPlaylistEpg::Input(input)),
            None => Err(absence()),
        },
        SpecEpgRequest::Custom(url) => if web_scheme(url_scheme(url)) {
            Ok(SpecPlaylistEpg::Custom(url))
        } else {
            Err(scheme_refusal())
        },
    }
}

/// Decides where the guide that is asked for comes from, or how the request is refused.
pub fn playlist_epg<'a>(app_config: &'a AppConfig, playlist_epg_req: PlaylistEpgRequest) -> (epg:
    Result<PlaylistEpg<'a>, Refusal>)
    ensures
        match epg {
            Ok(found) => requested_epg(app_config@, playlist_epg_req@) == Ok::<
                SpecPlaylistEpg,
                SpecRefusal,
            >(found@),
            Err(refusal) => requested_epg(app_config@, playlist_epg_req@) == Err::<
                SpecPlaylistEpg,
                SpecRefusal,
            >(refusal@),
        },
{
    match playlist_epg_req {
        PlaylistEpgRequest::Target(id) => match app_config.get_target_by_id(id) {
            Some(target) => Ok(PlaylistEpg::Target(target)),
            None => Err(refuse_absent()),
        },
        PlaylistEpgRequest::Input(name) => match app_config.get_input_by_name(name.as_str()) {
            Some(input) => Ok(PlaylistEpg::Input(input)),
            None => Err(refuse_absent()),
        },
        PlaylistEpgRequest::Custom(url) => {
            if is_web_url(url.as_str()) {
                Ok(PlaylistEpg::Custom(url))
            } else {
                Err(refuse_scheme())
            }
        },
    }
}

/// What is answered to a request for a guide.
pub enum EpgReply {
    /// The channels.
    Channels(Vec<EpgChannel>),
    /// That there are none.
    NoContent,
    /// That they cannot be loaded.
    Failed,
}

/// What is answered once the guides of an input are loaded.
pub fn reply_with_input_epg(result: Result<Option<Vec<EpgChannel>>, EpgLoadError>) -> (reply:
    EpgReply)
    ensures
        match result {
            Ok(Some(channels)) => reply == EpgReply::Channels(channels),
            Ok(None) => reply is NoContent,
            Err(_) => reply is Failed,
        },
{
    match result {
        Ok(Some(channels)) => EpgReply::Channels(channels),
        Ok(None) => EpgReply::NoContent,
        Err(_) => EpgReply::Failed,
    }
}

/// What is answered once a guide is read from a URL: `None` stands for a guide that could not be
/// read.
pub fn reply_with_custom_epg(channels: Option<Vec<EpgChannel>>) -> (reply: EpgReply)
    ensures
        match channels {
            Some(found) => reply == EpgReply::Channels(found),
            None => reply is Failed,
        },
{
    match channels {
        Some(found) => EpgReply::Channels(found),
        None => EpgReply::Failed,
    }
}

impl EpgReply {
    /// The status that is sent with the reply.
    pub fn status(&self) -> (status: Status)
        ensures
            status == match *self {
                EpgReply::Channels(_) => Status::Success,
                EpgReply::NoContent => Status::NoContent,
                EpgReply::Failed => Status::InternalServerError,
            },
    {
        match self {
            EpgReply::Channels(_) => Status::Success,
            EpgReply::NoContent => Status::NoContent,
            EpgReply::Failed => Status::InternalServerError,
        }
    }

    /// The text that is sent with the reply, if it tells of a failure. It says nothing of what went
    /// wrong.
    pub fn error_text(&self) -> (text: Option<&'static str>)
        ensures
            match text {
                Some(t) => *self is Failed && t@ == EPG_FAILED@,
                None => !(*self is Failed),
            },
    {
        match self {
            EpgReply::Failed => Some(EPG_FAILED),
            _ => None,
        }
    }
}

/// Where the web interface finds the pictures of channels.
pub const RESOURCE_PATH: &'static str = "api/v1/playlist/resource";

/// A text without the slashes at its start.
pub open spec fn without_leading_slashes(text: Seq<char>) -> Seq<char>
    decreases text.len(),
{
    if text.len() > 0 && text[0] == '/' {
        without_leading_slashes(text.skip(1))
    } else {
        text
    }
}

/// A text without the slashes at its end.
pub open spec fn without_trailing_slashes(text: Seq<char>) -> Seq<char>
    decreases text.len(),
{
    if text.len() > 0 && text.last() == '/' {
        without_trailing_slashes(text.drop_last())
    } else {
        text
    }
}

/// The path under which the pictures of channels are served: that of the web interface, if it has
/// one, and the path of the pictures, with one slash before each.
pub open spec fn resource_url(web_ui_path: Seq<char>) -> Seq<char> {
    let path = without_leading_slashes(without_trailing_slashes(web_ui_path));
    if path.len() == 0 {
        PATH_SEPARATOR@ + RESOURCE_PATH@
    } else {
        PATH_SEPARATOR@ + path + PATH_SEPARATOR@ + RESOURCE_PATH@
    }
}

/// The path under which the pictures of channels are served.
pub fn epg_resource_url(web_ui_path: Option<&str>) -> (url: String)
    ensures
        url@ == resource_url(
            match web_ui_path {
                Some(path) => path@,
                None => Seq::empty(),
            },
        ),
{
    let chars = match web_ui_path {
        Some(path) => to_chars(path),
        None => Vec::new(),
    };
    let ghost all = chars@;
    let mut end: usize = chars.len();
    assert(all.take(end as int) =~= all);
    while end > 0 && chars[end - 1] == '/'
        invariant
            end <= chars@.len(),
            all == chars@,
            without_trailing_slashes(all) == without_trailing_slashes(all.take(end as int)),
        decreases end,
    {
        assert(all.take(end as int).drop_last() =~= all.take(end - 1));
        end = end - 1;
    }
    let ghost kept = all.take(end as int);
    assert(without_trailing_slashes(all) == kept);
    let mut start: usize = 0;
    assert(kept.skip(0) =~= kept);
    while start < end && chars[start] == '/'
        invariant
            start <= end <= chars@.len(),
            all == chars@,
            kept == all.take(end as int),
            without_leading_slashes(kept) == without_leading_slashes(kept.skip(start as int)),
        decreases end - start,
    {
        assert(kept.skip(start as int).skip(1) =~= kept.skip(start + 1));
        start = start + 1;
    }
    assert(without_leading_slashes(kept) == kept.skip(start as int));
    assert(kept.skip(start as int) =~= chars@.subrange(start as int, end as int));
    let mut url = PATH_SEPARATOR.to_owned();
    if start < end {
        let path = from_chars(&chars, start, end);
        url.append(path.as_str());
        url.append(PATH_SEPARATOR);
    }
    url.append(RESOURCE_PATH);
    url
}

/// A playlist or a guide that is not configured is asked of a provider exactly if its URL is one
/// of the web, whatever is configured. Otherwise the request is answered with the status for a bad
/// request and the text on URL schemes.
pub proof fn law_only_web_urls_are_used(
    config: SpecConfig,
    username: Seq<char>,
    password: Seq<char>,
    url: Seq<char>,
    delays: RequestDelays,
)
    ensures
        ({
            let xtream = requested_content(
                config,
                SpecRequest::CustomXtream { username, password, url },
                delays,
            );
            let m3u = requested_content(config, SpecRequest::CustomM3u(url), delays);
            let epg = requested_epg(config, SpecEpgRequest::Custom(url));
            if web_scheme(url_scheme(url)) {
                &&& xtream == Ok::<SpecContent, SpecRefusal>(
                    SpecContent::Provider(xtream_input(username, password, url, delays)),
                )
                &&& m3u == Ok::<SpecContent, SpecRefusal>(
                    SpecContent::Provider(m3u_input(url, delays)),
                )
                &&& epg == Ok::<SpecPlaylistEpg, SpecRefusal>(SpecPlaylistEpg::Custom(url))
            } else {
                let refusal = SpecRefusal {
                    status: Status::BadRequest,
                    text: Some(INVALID_SCHEME@),
                };
                &&& xtream == Err::<SpecContent, SpecRefusal>(refusal)
                &&& m3u == Err::<SpecContent, SpecRefusal>(refusal)
                &&& epg == Err::<SpecPlaylistEpg, SpecRefusal>(refusal)
            }
        }),
{
}

/// A request for the guide of an input is answered with the status for no content exactly if no
/// input has that name.
pub proof fn law_guide_of_unknown_input(config: SpecConfig, name: Seq<char>)
    ensures
        requested_epg(config, SpecEpgRequest::Input(name)) == Err::<SpecPlaylistEpg, SpecRefusal>(
            SpecRefusal { status: Status::NoContent, text: None },
        ) <==> forall|i: int|
            0 <= i < config.inputs.len() ==> (#[trigger] config.inputs[i]).name != name,
{
    lemma_input_by_name(config.inputs, name);
}

proof fn lemma_input_by_name(inputs: Seq<SpecInput>, name: Seq<char>)
    ensures
        input_by_name(inputs, name) is None <==> forall|i: int|
            0 <= i < inputs.len() ==> (#[trigger] inputs[i]).name != name,
    decreases inputs.len(),
{
    if inputs.len() > 0 {
        let rest = inputs.skip(1);
        lemma_input_by_name(rest, name);
        if inputs[0].name != name {
            assert forall|i: int| 0 <= i < rest.len() implies rest[i] == inputs[i + 1] by {}
            if input_by_name(rest, name) is None {
                assert forall|i: int| 0 <= i < inputs.len() implies (#[trigger] inputs[i]).name
                    != name by {
                    if i > 0 {
                        assert(rest[i - 1].name != name);
                    }
                }
            } else {
                let i = choose|i: int| 0 <= i < rest.len() && (#[trigger] rest[i]).name == name;
                assert(inputs[i + 1].name == name);
            }
        }
    }
}

} // verus!
