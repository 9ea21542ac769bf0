//! What holds of the answers to requests for playlists and guides.
use crate::config::{InputType, SpecConfig, TargetType};
use crate::numbers::{decimal, law_decimal_is_made_of_digits};
use crate::playlist::{
    m3u_input, request_options, requested_content, requested_epg, resource_url, series_target,
    web_scheme, webplayer_url, without_leading_slashes, without_trailing_slashes, xtream_input,
    RequestDelays, SpecContent, SpecPlaylistEpg, SpecRefusal, Status,
};
use crate::requests::{stream_type, SpecEpgRequest, SpecRequest, XtreamCluster};
use vstd::prelude::*;

verus! {

/// The URL of a stream leads from the base over the token and the target to the kind and the number
/// of the stream.
pub proof fn law_url_of_a_stream(
    base_url: Seq<char>,
    access_token: Seq<char>,
    target_id: u16,
    virtual_id: u32,
    cluster: XtreamCluster,
)
    ensures
        webplayer_url(base_url, access_token, target_id, virtual_id, cluster) == base_url
            + "/token/"@ + access_token + "/"@ + decimal(target_id as nat) + "/"@ + match cluster {
            XtreamCluster::Live => "live"@,
            XtreamCluster::Video => "movie"@,
            XtreamCluster::Series => "series"@,
        } + "/"@ + decimal(virtual_id as nat),
{
}

/// Texts that are equal up to their first slashes are equal before and behind those.
proof fn lemma_split_at_slash(a: Seq<char>, b: Seq<char>, c: Seq<char>, d: Seq<char>)
    requires
        forall|i: int| 0 <= i < a.len() ==> #[trigger] a[i] != '/',
        forall|i: int| 0 <= i < b.len() ==> #[trigger] b[i] != '/',
        a + seq!['/'] + c == b + seq!['/'] + d,
    ensures
        a == b,
        c == d,
{
    let left = a + seq!['/'] + c;
    let right = b + seq!['/'] + d;
    assert(left[a.len() as int] == '/');
    assert(right[b.len() as int] == '/');
    if a.len() < b.len() {
        assert(right[a.len() as int] == b[a.len() as int]);
    }
    if b.len() < a.len() {
        assert(left[b.len() as int] == a[b.len() as int]);
    }
    assert(a =~= b) by {
        assert forall|i: int| 0 <= i < a.len() implies a[i] == b[i] by {
            assert(left[i] == a[i]);
            assert(right[i] == b[i]);
        }
    }
    assert(left.skip(a.len() as int + 1) =~= c);
    assert(right.skip(b.len() as int + 1) =~= d);
}

proof fn lemma_no_slash_in_numbers(value: nat)
    ensures
        forall|i: int| 0 <= i < decimal(value).len() ==> #[trigger] decimal(value)[i] != '/',
{
    law_decimal_is_made_of_digits(value, value);
}

proof fn lemma_stream_types(cluster: XtreamCluster, other: XtreamCluster)
    ensures
        forall|i: int|
            0 <= i < stream_type(cluster).len() ==> #[trigger] stream_type(cluster)[i] != '/',
        stream_type(cluster) == stream_type(other) ==> cluster == other,
{
    reveal_strlit("live");
    reveal_strlit("movie");
    reveal_strlit("series");
    assert("live"@.len() == 4);
    assert("movie"@.len() == 5);
    assert("series"@.len() == 6);
}

/// Different streams have different URLs, even for the same user.
pub proof fn law_streams_have_different_urls(
    base_url: Seq<char>,
    access_token: Seq<char>,
    target_id: u16,
    virtual_id: u32,
    cluster: XtreamCluster,
    other_target: u16,
    other_id: u32,
    other_cluster: XtreamCluster,
)
    requires
        webplayer_url(base_url, access_token, target_id, virtual_id, cluster) == webplayer_url(
            base_url,
            access_token,
            other_target,
            other_id,
            other_cluster,
        ),
    ensures
        target_id == other_target,
        virtual_id == other_id,
        cluster == other_cluster,
{
    reveal_strlit("/");
    let slash = seq!['/'];
    assert("/"@ =~= slash);
    let front = base_url + "/token/"@ + access_token + slash;
    let a = decimal(target_id as nat);
    let b = stream_type(cluster);
    let c = decimal(virtual_id as nat);
    let x = decimal(other_target as nat);
    let y = stream_type(other_cluster);
    let z = decimal(other_id as nat);
    let left = a + slash + (b + slash + c);
    let right = x + slash + (y + slash + z);
    let url = webplayer_url(base_url, access_token, target_id, virtual_id, cluster);
    assert(url =~= front + left);
    assert(url =~= front + right);
    assert(left =~= url.skip(front.len() as int));
    assert(right =~= url.skip(front.len() as int));
    lemma_no_slash_in_numbers(target_id as nat);
    lemma_no_slash_in_numbers(other_target as nat);
    lemma_split_at_slash(a, x, b + slash + c, y + slash + z);
    lemma_stream_types(cluster, other_cluster);
    lemma_stream_types(other_cluster, cluster);
    lemma_split_at_slash(b, y, c, z);
    law_decimal_is_made_of_digits(target_id as nat, other_target as nat);
    law_decimal_is_made_of_digits(virtual_id as nat, other_id as nat);
}

/// Whether a text is made of slashes.
pub open spec fn only_slashes(text: Seq<char>) -> bool {
    forall|i: int| 0 <= i < text.len() ==> #[trigger] text[i] == '/'
}

proof fn lemma_leading_slashes(slashes: Seq<char>, path: Seq<char>)
    requires
        only_slashes(slashes),
        path.len() > 0 ==> path[0] != '/',
    ensures
        without_leading_slashes(slashes + path) == path,
    decreases slashes.len(),
{
    if slashes.len() == 0 {
        assert(slashes + path =~= path);
    } else {
        assert((slashes + path)[0] == slashes[0]);
        assert((slashes + path).skip(1) =~= slashes.skip(1) + path);
        lemma_leading_slashes(slashes.skip(1), path);
    }
}

proof fn lemma_trailing_slashes(path: Seq<char>, slashes: Seq<char>)
    requires
        only_slashes(slashes),
        path.len() > 0 ==> path.last() != '/',
    ensures
        without_trailing_slashes(path + slashes) == path,
    decreases slashes.len(),
{
    if slashes.len() == 0 {
        assert(path + slashes =~= path);
    } else {
        assert((path + slashes).last() == slashes.last());
        assert((path + slashes).drop_last() =~= path + slashes.drop_last());
        lemma_trailing_slashes(path, slashes.drop_last());
    }
}

/// The path of the pictures stands behind that of the web interface, whatever slashes stand around
/// that one; without one it stands alone.
pub proof fn law_path_of_the_pictures(before: Seq<char>, path: Seq<char>, behind: Seq<char>)
    requires
        only_slashes(before),
        only_slashes(behind),
        path.len() > 0,
        path[0] != '/',
        path.last() != '/',
    ensures
        resource_url(before + path + behind) == "/"@ + path + "/"@ + "api/v1/playlist/resource"@,
        resource_url(before) == "/"@ + "api/v1/playlist/resource"@,
{
    lemma_trailing_slashes(before + path, behind);
    lemma_leading_slashes(before, path);
    let nothing = Seq::<char>::empty();
    lemma_trailing_slashes(nothing, before);
    assert(nothing + before =~= before);
    assert(nothing + nothing =~= nothing);
    lemma_leading_slashes(nothing, nothing);
}

/// Only a configured target whose streams are offered with series can tell of them; no other
/// request does.
pub proof fn law_series_of_a_target(config: SpecConfig, request: SpecRequest, id: u16)
    ensures
        !(request is Target) ==> series_target(config, request) is None,
        config.target(id) is None ==> series_target(config, SpecRequest::Target(id)) is None,
        config.target(id) matches Some(target) ==> {
            &&& target.output.contains(TargetType::Xtream) ==> series_target(
                config,
                SpecRequest::Target(id),
            ) == Some(target)
            &&& !target.output.contains(TargetType::Xtream) ==> series_target(
                config,
                SpecRequest::Target(id),
            ) is None
        },
{
}

/// A request for a target or an input is about the one that is configured.
pub proof fn law_configured_content(
    config: SpecConfig,
    id: u16,
    name: Seq<char>,
    delays: RequestDelays,
)
    ensures
        requested_content(config, SpecRequest::Target(id), delays) == Ok::<
            SpecContent,
            SpecRefusal,
        >(SpecContent::Target(config.target(id))),
        requested_content(config, SpecRequest::Input(name), delays) == Ok::<
            SpecContent,
            SpecRefusal,
        >(SpecContent::Input(config.input(name))),
        config.target(id) matches Some(target) ==> requested_epg(
            config,
            SpecEpgRequest::Target(id),
        ) == Ok::<SpecPlaylistEpg, SpecRefusal>(SpecPlaylistEpg::Target(target)),
        config.input(name) matches Some(input) ==> requested_epg(
            config,
            SpecEpgRequest::Input(name),
        ) == Ok::<SpecPlaylistEpg, SpecRefusal>(SpecPlaylistEpg::Input(input)),
        config.target(id) is None ==> requested_epg(config, SpecEpgRequest::Target(id)) == Err::<
            SpecPlaylistEpg,
            SpecRefusal,
        >((SpecRefusal { status: Status::NoContent, text: None })),
        config.input(name) is None ==> requested_epg(config, SpecEpgRequest::Input(name)) == Err::<
            SpecPlaylistEpg,
            SpecRefusal,
        >((SpecRefusal { status: Status::NoContent, text: None })),
{
}

/// The schemes of the web are `http` and `https`.
pub proof fn law_schemes_of_the_web(scheme: Option<Seq<char>>)
    ensures
        web_scheme(scheme) <==> scheme is Some && (scheme->0 == "http"@ || scheme->0 == "https"@),
{
}

/// An input that stands for a request has the URL and the account of the request, the delays that
/// are configured, and no guide or provider of its own.
pub proof fn law_input_of_a_request(
    url: Seq<char>,
    username: Seq<char>,
    password: Seq<char>,
    delays: RequestDelays,
)
    ensures
        ({
            let m3u = m3u_input(url, delays);
            let xtream = xtream_input(username, password, url, delays);
            let options = request_options(delays);
            &&& m3u.url == url && xtream.url == url
            &&& m3u.name == "m3u_req"@ && xtream.name == "xc_req"@
            &&& m3u.input_type == InputType::M3u && xtream.input_type == InputType::Xtream
            &&& m3u.username is None && m3u.password is None
            &&& xtream.username == Some(username) && xtream.password == Some(password)
            &&& m3u.enabled && xtream.enabled
            &&& m3u.epg is None && xtream.epg is None
            &&& m3u.provider_configs.len() == 0 && xtream.provider_configs.len() == 0
            &&& m3u.options == Some(options) && xtream.options == Some(options)
            &&& options.resolve_delay == delays.resolve_delay
            &&& options.probe_delay == delays.probe_delay
            &&& options.flags.xtream_live_stream_use_prefix && options.flags.resolve_background
            &&& options.probe_live_interval_hours == 120
            &&& options.resolve_filter is None && options.probe_filter is None
        }),
{
}

} // verus!
