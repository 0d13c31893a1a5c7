//! What a release is made of: where it comes from, how it was taken from a
//! stream, and how many lines the picture has. Every text stands for one of
//! the variants, and every variant has one name, the one that is stored.
use crate::text::{lowered, same, to_lower_text};
use vstd::prelude::*;

verus! {

/// Where a release comes from.
#[derive(Debug, Clone, Copy, PartialEq, Eq, Structural)]
pub enum Source {
    BluRay,
    Web,
    Dvd,
    Hdtv,
    Tv,
    Unknown,
}

/// How a release was taken from a stream.
#[derive(Debug, Clone, Copy, PartialEq, Eq, Structural)]
pub enum WebKind {
    Unspecified,
    WebDl,
    WebRip,
}

/// How many lines the picture has.
#[derive(Debug, Clone, Copy, PartialEq, Eq, Structural)]
pub enum Resolution {
    P480,
    P576,
    P720,
    P1080,
    P2160,
    Unknown,
}

/// The source with a name, written in lower case.
pub open spec fn source_named(name: Seq<char>) -> Source {
    if name == "bluray"@ || name == "blu-ray"@ || name == "bd"@ {
        Source::BluRay
    } else if name == "web"@ {
        Source::Web
    } else if name == "dvd"@ {
        Source::Dvd
    } else if name == "hdtv"@ {
        Source::Hdtv
    } else if name == "tv"@ {
        Source::Tv
    } else {
        Source::Unknown
    }
}

impl Source {
    pub open spec fn name(self) -> Seq<char> {
        match self {
            Source::BluRay => "BluRay"@,
            Source::Web => "Web"@,
            Source::Dvd => "DVD"@,
            Source::Hdtv => "HDTV"@,
            Source::Tv => "TV"@,
            Source::Unknown => "Unknown"@,
        }
    }

    /// The name of the source.
    pub fn as_str(&self) -> (name: &'static str)
        ensures
            name@ == self.name(),
    {
        match self {
            Source::BluRay => "BluRay",
            Source::Web => "Web",
            Source::Dvd => "DVD",
            Source::Hdtv => "HDTV",
            Source::Tv => "TV",
            Source::Unknown => "Unknown",
        }
    }

    /// The source with a name, in any case; `Unknown` when there is none.
    pub fn from_str(s: &str) -> (source: Source)
        ensures
            source == source_named(lowered(s@)),
    {
        let name = to_lower_text(s);
        if same(&name, "bluray") || same(&name, "blu-ray") || same(&name, "bd") {
            Source::BluRay
        } else if same(&name, "web") {
            Source::Web
        } else if same(&name, "dvd") {
            Source::Dvd
        } else if same(&name, "hdtv") {
            Source::Hdtv
        } else if same(&name, "tv") {
            Source::Tv
        } else {
            Source::Unknown
        }
    }
}

/// A source is read from its name.
pub proof fn a_source_is_read_from_its_name(source: Source)
    ensures
        source_named(lowered(source.name())) == source,
{
    reveal_strlit("BluRay");
    reveal_strlit("Web");
    reveal_strlit("DVD");
    reveal_strlit("HDTV");
    reveal_strlit("TV");
    reveal_strlit("Unknown");
    reveal_strlit("bluray");
    reveal_strlit("blu-ray");
    reveal_strlit("bd");
    reveal_strlit("web");
    reveal_strlit("dvd");
    reveal_strlit("hdtv");
    reveal_strlit("tv");
    assert(lowered("BluRay"@) =~= "bluray"@);
    assert(lowered("Web"@) =~= "web"@);
    assert(lowered("DVD"@) =~= "dvd"@);
    assert(lowered("HDTV"@) =~= "hdtv"@);
    assert(lowered("TV"@) =~= "tv"@);
    let unknown = lowered("Unknown"@);
    assert(unknown.len() == 7 && unknown[0] == 'u');
    assert("bluray"@.len() == 6 && "blu-ray"@.len() == 7 && "blu-ray"@[0] == 'b');
    assert("bd"@.len() == 2 && "bd"@[0] == 'b' && "tv"@.len() == 2 && "tv"@[0] == 't');
    assert("web"@.len() == 3 && "web"@[0] == 'w' && "dvd"@.len() == 3 && "dvd"@[0] == 'd');
    assert("hdtv"@.len() == 4);
}

/// The way of taking that a text stands for, written in lower case.
pub open spec fn web_kind_named(name: Seq<char>) -> WebKind {
    if name == "webrip"@ || name == "web-rip"@ || name == "web.rip"@ {
        WebKind::WebRip
    } else if name == "webdl"@ || name == "web-dl"@ || name == "web.dl"@ {
        WebKind::WebDl
    } else {
        WebKind::Unspecified
    }
}

impl WebKind {
    pub open spec fn name(self) -> Seq<char> {
        match self {
            WebKind::Unspecified => ""@,
            WebKind::WebDl => "WEB-DL"@,
            WebKind::WebRip => "WEBRip"@,
        }
    }

    /// The name of the way of taking; none where nothing is said of it.
    pub fn as_str(&self) -> (name: &'static str)
        ensures
            name@ == self.name(),
    {
        match self {
            WebKind::Unspecified => "",
            WebKind::WebDl => "WEB-DL",
            WebKind::WebRip => "WEBRip",
        }
    }

    /// The way of taking that a text stands for, in any case.
    pub fn from_str(s: &str) -> (kind: WebKind)
        ensures
            kind == web_kind_named(lowered(s@)),
    {
        let name = to_lower_text(s);
        if same(&name, "webrip") || same(&name, "web-rip") || same(&name, "web.rip") {
            WebKind::WebRip
        } else if same(&name, "webdl") || same(&name, "web-dl") || same(&name, "web.dl") {
            WebKind::WebDl
        } else {
            WebKind::Unspecified
        }
    }
}

/// The way of taking is read from its name.
pub proof fn a_web_kind_is_read_from_its_name(kind: WebKind)
    ensures
        web_kind_named(lowered(kind.name())) == kind,
{
    reveal_strlit("");
    reveal_strlit("WEB-DL");
    reveal_strlit("WEBRip");
    reveal_strlit("webrip");
    reveal_strlit("web-rip");
    reveal_strlit("web.rip");
    reveal_strlit("webdl");
    reveal_strlit("web-dl");
    reveal_strlit("web.dl");
    assert(lowered("WEB-DL"@) =~= "web-dl"@);
    assert(lowered("WEBRip"@) =~= "webrip"@);
    assert(lowered(""@).len() == 0);
    assert("web-dl"@[4] == 'd' && "webrip"@[4] == 'i');
}

/// The resolution with a name, written in lower case.
pub open spec fn resolution_named(name: Seq<char>) -> Resolution {
    if name == "480p"@ {
        Resolution::P480
    } else if name == "576p"@ {
        Resolution::P576
    } else if name == "720p"@ {
        Resolution::P720
    } else if name == "1080p"@ {
        Resolution::P1080
    } else if name == "2160p"@ {
        Resolution::P2160
    } else {
        Resolution::Unknown
    }
}

impl Resolution {
    pub open spec fn name(self) -> Seq<char> {
        match self {
            Resolution::P480 => "480p"@,
            Resolution::P576 => "576p"@,
            Resolution::P720 => "720p"@,
            Resolution::P1080 => "1080p"@,
            Resolution::P2160 => "2160p"@,
            Resolution::Unknown => "Unknown"@,
        }
    }

    /// The name of the resolution.
    pub fn as_str(&self) -> (name: &'static str)
        ensures
            name@ == self.name(),
    {
        match self {
            Resolution::P480 => "480p",
            Resolution::P576 => "576p",
            Resolution::P720 => "720p",
            Resolution::P1080 => "1080p",
            Resolution::P2160 => "2160p",
            Resolution::Unknown => "Unknown",
        }
    }

    /// The resolution with a name, in any case; `Unknown` when there is none.
    pub fn from_str(s: &str) -> (resolution: Resolution)
        ensures
            resolution == resolution_named(lowered(s@)),
    {
        let name = to_lower_text(s);
        if same(&name, "480p") {
            Resolution::P480
        } else if same(&name, "576p") {
            Resolution::P576
        } else if same(&name, "720p") {
            Resolution::P720
        } else if same(&name, "1080p") {
            Resolution::P1080
        } else if same(&name, "2160p") {
            Resolution::P2160
        } else {
            Resolution::Unknown
        }
    }
}

/// A resolution is read from its name.
pub proof fn a_resolution_is_read_from_its_name(resolution: Resolution)
    ensures
        resolution_named(lowered(resolution.name())) == resolution,
{
    reveal_strlit("480p");
    reveal_strlit("576p");
    reveal_strlit("720p");
    reveal_strlit("1080p");
    reveal_strlit("2160p");
    reveal_strlit("Unknown");
    assert(lowered("480p"@) =~= "480p"@);
    assert(lowered("576p"@) =~= "576p"@);
    assert(lowered("720p"@) =~= "720p"@);
    assert(lowered("1080p"@) =~= "1080p"@);
    assert(lowered("2160p"@) =~= "2160p"@);
    assert(lowered("Unknown"@).len() == 7);
    assert("480p"@[0] == '4' && "576p"@[0] == '5' && "720p"@[0] == '7');
    assert("1080p"@[0] == '1' && "2160p"@[0] == '2');
}

/// The name of a resolution is the number of lines with a `p` behind it, and
/// both stand for the same.
pub proof fn a_resolution_is_named_by_its_lines(r: Resolution)
    ensures
        r.name() == "480p"@ <==> r == Resolution::P480,
        r.name() == "576p"@ <==> r == Resolution::P576,
        r.name() == "720p"@ <==> r == Resolution::P720,
        r.name() == "1080p"@ <==> r == Resolution::P1080,
        r.name() == "2160p"@ <==> r == Resolution::P2160,
        r.name() == "Unknown"@ <==> r == Resolution::Unknown,
{
    a_resolution_is_read_from_its_name(r);
    a_resolution_is_read_from_its_name(Resolution::P480);
    a_resolution_is_read_from_its_name(Resolution::P576);
    a_resolution_is_read_from_its_name(Resolution::P720);
    a_resolution_is_read_from_its_name(Resolution::P1080);
    a_resolution_is_read_from_its_name(Resolution::P2160);
    a_resolution_is_read_from_its_name(Resolution::Unknown);
}

/// Every source has a name of its own, and the names that stand for one are
/// taken in any case.
pub proof fn a_source_is_named_in_any_case(s: Seq<char>)
    ensures
        lowered(s) == "bluray"@ || lowered(s) == "blu-ray"@ || lowered(s) == "bd"@
            ==> source_named(lowered(s)).name() == "BluRay"@,
        lowered(s) == "web"@ ==> source_named(lowered(s)).name() == "Web"@,
        lowered(s) == "dvd"@ ==> source_named(lowered(s)).name() == "DVD"@,
        lowered(s) == "hdtv"@ ==> source_named(lowered(s)).name() == "HDTV"@,
        lowered(s) == "tv"@ ==> source_named(lowered(s)).name() == "TV"@,
        lowered(s) != "bluray"@ && lowered(s) != "blu-ray"@ && lowered(s) != "bd"@ && lowered(s)
            != "web"@ && lowered(s) != "dvd"@ && lowered(s) != "hdtv"@ && lowered(s) != "tv"@
            ==> source_named(lowered(s)).name() == "Unknown"@,
{
    reveal_strlit("bluray");
    reveal_strlit("blu-ray");
    reveal_strlit("bd");
    reveal_strlit("web");
    reveal_strlit("dvd");
    reveal_strlit("hdtv");
    reveal_strlit("tv");
    assert("bluray"@.len() == 6 && "blu-ray"@.len() == 7 && "hdtv"@.len() == 4);
    assert("web"@.len() == 3 && "dvd"@.len() == 3 && "tv"@.len() == 2 && "bd"@.len() == 2);
    assert("web"@[0] == 'w' && "dvd"@[0] == 'd' && "tv"@[0] == 't' && "bd"@[0] == 'b');
}

/// The way of taking is known by its spellings, in any case; what is no
/// spelling of either says nothing of it.
pub proof fn a_web_kind_is_named_in_any_case(s: Seq<char>)
    ensures
        lowered(s) == "webrip"@ || lowered(s) == "web-rip"@ || lowered(s) == "web.rip"@
            ==> web_kind_named(lowered(s)).name() == "WEBRip"@,
        lowered(s) == "webdl"@ || lowered(s) == "web-dl"@ || lowered(s) == "web.dl"@
            ==> web_kind_named(lowered(s)).name() == "WEB-DL"@,
        lowered(s) != "webrip"@ && lowered(s) != "web-rip"@ && lowered(s) != "web.rip"@ && lowered(s)
            != "webdl"@ && lowered(s) != "web-dl"@ && lowered(s) != "web.dl"@ ==> web_kind_named(
            lowered(s),
        ).name() == ""@,
{
    reveal_strlit("webrip");
    reveal_strlit("web-rip");
    reveal_strlit("web.rip");
    reveal_strlit("webdl");
    reveal_strlit("web-dl");
    reveal_strlit("web.dl");
    assert("webdl"@.len() == 5 && "web-dl"@.len() == 6 && "web.dl"@.len() == 6);
    assert("webrip"@.len() == 6 && "web-rip"@.len() == 7 && "web.rip"@.len() == 7);
    assert("web-dl"@[4] == 'd' && "web.dl"@[4] == 'd' && "webrip"@[4] == 'i');
}

} // verus!
