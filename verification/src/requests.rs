//! What can be asked of the playlists.
use vstd::prelude::*;

verus! {

/// The three kinds of streams.
#[derive(Clone, Copy, PartialEq, Eq, Structural, Debug)]
pub enum XtreamCluster {
    Live,
    Video,
    Series,
}

/// The stream type of live streams.
pub const STREAM_TYPE_LIVE: &'static str = "live";

/// The stream type of videos.
pub const STREAM_TYPE_MOVIE: &'static str = "movie";

/// The stream type of series.
pub const STREAM_TYPE_SERIES: &'static str = "series";

/// What a kind of streams is called in a URL.
pub open spec fn stream_type(cluster: XtreamCluster) -> Seq<char> {
    match cluster {
        XtreamCluster::Live => STREAM_TYPE_LIVE@,
        XtreamCluster::Video => STREAM_TYPE_MOVIE@,
        XtreamCluster::Series => STREAM_TYPE_SERIES@,
    }
}

impl XtreamCluster {
    /// What this kind of streams is called in a URL.
    pub fn as_stream_type(self) -> (name: &'static str)
        ensures
            name@ == stream_type(self),
    {
        match self {
            XtreamCluster::Live => STREAM_TYPE_LIVE,
            XtreamCluster::Video => STREAM_TYPE_MOVIE,
            XtreamCluster::Series => STREAM_TYPE_SERIES,
        }
    }
}

/// How streams reach a user.
#[derive(Clone, Copy, PartialEq, Eq, Structural, Debug)]
pub enum ProxyType {
    /// Through this server.
    Reverse,
    /// From the provider, to whom the user is redirected.
    Redirect,
}

/// The account at a provider that is not configured.
pub struct XtreamPlaylistRequest {
    pub username: String,
    pub password: String,
    pub url: String,
}

/// A playlist that is not configured.
pub struct M3uPlaylistRequest {
    pub url: String,
}

/// Which playlist is asked for.
pub enum PlaylistRequest {
    Target(u16),
    Input(String),
    CustomXtream(XtreamPlaylistRequest),
    CustomM3u(M3uPlaylistRequest),
}

/// A [`PlaylistRequest`] as a mathematical value.
pub enum SpecRequest {
    Target(u16),
    Input(Seq<char>),
    CustomXtream { username: Seq<char>, password: Seq<char>, url: Seq<char> },
    CustomM3u(Seq<char>),
}

impl View for PlaylistRequest {
    type V = SpecRequest;

    open spec fn view(&self) -> SpecRequest {
        match *self {
            PlaylistRequest::Target(id) => SpecRequest::Target(id),
            PlaylistRequest::Input(name) => SpecRequest::Input(name@),
            PlaylistRequest::CustomXtream(xtream) => SpecRequest::CustomXtream {
                username: xtream.username@,
                password: xtream.password@,
                url: xtream.url@,
            },
            PlaylistRequest::CustomM3u(m3u) => SpecRequest::CustomM3u(m3u.url@),
        }
    }
}

/// Which guide is asked for.
pub enum PlaylistEpgRequest {
    Target(u16),
    Input(String),
    Custom(String),
}

/// A [`PlaylistEpgRequest`] as a mathematical value.
pub enum SpecEpgRequest {
    Target(u16),
    Input(Seq<char>),
    Custom(Seq<char>),
}

impl View for PlaylistEpgRequest {
    type V = SpecEpgRequest;

    open spec fn view(&self) -> SpecEpgRequest {
        match *self {
            PlaylistEpgRequest::Target(id) => SpecEpgRequest::Target(id),
            PlaylistEpgRequest::Input(name) => SpecEpgRequest::Input(name@),
            PlaylistEpgRequest::Custom(url) => SpecEpgRequest::Custom(url@),
        }
    }
}

/// Which URL is asked for.
pub enum PlaylistUrlResolveRequest {
    /// That of a stream for the web player.
    Webplayer { target_id: u16, virtual_id: u32, cluster: XtreamCluster },
    /// That which a URL of a playlist leads to.
    Provider { playlist_request: PlaylistRequest, url: String },
}

} // verus!
