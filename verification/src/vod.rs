//! The master playlist of a video on demand: where its renditions lie
//! on the CDN, what a probe of a rendition tells, and the playlist text.

use crate::cache::{expiry, TimedCache};
use crate::civil::{age_millis, elapsed_millis_since};
use crate::encoding::{decimal, lowercased, push_decimal, push_percent_encoded, to_lowercase};
use crate::gql::{escaped, gql_escape, vod_manifest_query, vod_manifest_query_text};
use crate::registry::{
    fresh_token, is_hex_lower, is_proxy_token, proxy_key, proxy_path,
    register_variant_proxy_target, token_char_ok, validated, TARGET_TTL_SECS,
};
use crate::text::{
    append, append_str, chars_of, contains_in, contains_text, find_char, find_char_from,
    find_from, find_in, replace_all, replace_all_exec, slice_of, string_of, text_is, trim_ws,
    trim_ws_exec,
};
use vstd::prelude::*;

verus! {

broadcast use vstd::string::group_string_axioms;

// ---------------------------------------------------------------------
// Identifiers
// ---------------------------------------------------------------------

/// A character of a video identifier: an ASCII letter or digit, `_` or `-`.
pub open spec fn is_id_char(c: char) -> bool {
    ('a' <= c <= 'z') || ('A' <= c <= 'Z') || ('0' <= c <= '9') || c == '_' || c == '-'
}

/// A video identifier: one or more identifier characters.
pub open spec fn is_vod_id(s: Seq<char>) -> bool {
    s.len() > 0 && forall|i: int| 0 <= i < s.len() ==> is_id_char(#[trigger] s[i])
}

/// Is `s` a video identifier?
pub fn is_vod_id_exec(s: &str) -> (b: bool)
    ensures
        b == is_vod_id(s@),
{
    let v = chars_of(s);
    if v.len() == 0 {
        return false;
    }
    let mut i: usize = 0;
    while i < v.len()
        invariant
            i <= v.len(),
            v@ == s@,
            forall|j: int| 0 <= j < i ==> is_id_char(#[trigger] v@[j]),
        decreases v.len() - i,
    {
        let c: char = v[i];
        if !(('a' <= c && c <= 'z') || ('A' <= c && c <= 'Z') || ('0' <= c && c <= '9') || c == '_'
            || c == '-') {
            assert(!is_id_char(v@[i as int]));
            return false;
        }
        i += 1;
    }
    true
}

// ---------------------------------------------------------------------
// The CDN domain and the special id
// ---------------------------------------------------------------------

/// Why the preview URL of a video gives no domain and special id.
#[derive(Debug, Clone, Copy, PartialEq, Eq, Structural)]
pub enum VodUrlError {
    /// The URL has no `//`.
    NoSchemeSeparator,
    /// Nothing follows the domain.
    NoPath,
    /// No segment of the path holds `storyboards`.
    NoStoryboards,
    /// The segment before the storyboards is empty.
    EmptySpecialId,
}

/// The segment that precedes the first segment holding `storyboards`,
/// among the `/`-separated segments of `s` from index `start` on;
/// `prev` is the segment before `start`.
pub open spec fn segment_before_storyboards(s: Seq<char>, start: int, prev: Seq<char>) -> Option<
    Seq<char>,
>
    decreases s.len() - start,
{
    let e = find_char_from(s, '/', start);
    let segment = s.subrange(start, e);
    if contains_text(segment, "storyboards"@) {
        Some(prev)
    } else if 0 <= start <= e < s.len() {
        segment_before_storyboards(s, e + 1, segment)
    } else {
        None
    }
}

/// The domain and the special id that a preview URL gives: the domain
/// is what stands between `//` and the next `/`; the special id is the
/// path segment just before the one that holds `storyboards`.
pub open spec fn vod_url_info(url: Seq<char>) -> Result<(Seq<char>, Seq<char>), VodUrlError> {
    match find_from(url, "//"@, 0) {
        None => Err(VodUrlError::NoSchemeSeparator),
        Some(i) => {
            let rest = url.subrange(i + 2, url.len() as int);
            let j = find_char_from(rest, '/', 0);
            if j >= rest.len() {
                Err(VodUrlError::NoPath)
            } else {
                match segment_before_storyboards(rest, j + 1, Seq::empty()) {
                    None => Err(VodUrlError::NoStoryboards),
                    Some(id) => if id.len() == 0 {
                        Err(VodUrlError::EmptySpecialId)
                    } else {
                        Ok((rest.subrange(0, j), id))
                    },
                }
            }
        },
    }
}

/// Reads the CDN domain and the special id of a video from the URL of
/// its seek previews.
pub fn parse_vod_url_info(seek_previews_url: &str) -> (r: Result<(String, String), VodUrlError>)
    ensures
        match r {
            Ok((domain, id)) => vod_url_info(seek_previews_url@) == Ok::<
                (Seq<char>, Seq<char>),
                VodUrlError,
            >((domain@, id@)),
            Err(e) => vod_url_info(seek_previews_url@) == Err::<(Seq<char>, Seq<char>), VodUrlError>(
                e,
            ),
        },
{
    let url = chars_of(seek_previews_url);
    let slashes = chars_of("//");
    let needle = chars_of("storyboards");
    proof {
        reveal_strlit("//");
    }
    let i: usize = match find_in(&url, &slashes, 0) {
        Some(i) => i,
        None => {
            return Err(VodUrlError::NoSchemeSeparator);
        },
    };
    let rest = slice_of(&url, i + 2, url.len());
    let j: usize = find_char(&rest, '/', 0);
    if j >= rest.len() {
        return Err(VodUrlError::NoPath);
    }
    let mut start: usize = j + 1;
    let mut prev: Vec<char> = Vec::new();
    loop
        invariant
            start <= rest.len(),
            needle@ == "storyboards"@,
            segment_before_storyboards(rest@, j + 1, Seq::empty()) == segment_before_storyboards(
                rest@,
                start as int,
                prev@,
            ),
            vod_url_info(seek_previews_url@) == (match segment_before_storyboards(
                rest@,
                j + 1,
                Seq::empty(),
            ) {
                None => Err::<(Seq<char>, Seq<char>), VodUrlError>(VodUrlError::NoStoryboards),
                Some(id) => if id.len() == 0 {
                    Err(VodUrlError::EmptySpecialId)
                } else {
                    Ok((rest@.subrange(0, j as int), id))
                },
            }),
        decreases rest.len() - start,
    {
        let e: usize = find_char(&rest, '/', start);
        let segment = slice_of(&rest, start, e);
        if contains_in(&segment, &needle) {
            if prev.len() == 0 {
                return Err(VodUrlError::EmptySpecialId);
            }
            let domain = slice_of(&rest, 0, j);
            return Ok((string_of(&domain), string_of(&prev)));
        }
        if e >= rest.len() {
            return Err(VodUrlError::NoStoryboards);
        }
        prev = segment;
        start = e + 1;
    }
}

// ---------------------------------------------------------------------
// Renditions and their URLs
// ---------------------------------------------------------------------

/// One of the renditions that a video may have.
#[derive(Debug, Clone, PartialEq, Eq)]
pub struct Rendition {
    /// The name of the rendition in CDN paths.
    pub key: String,
    /// Width and height, as `1920x1080`.
    pub resolution: String,
    /// Frames per second.
    pub fps: u32,
}

/// The mathematical form of a [`Rendition`].
pub struct RenditionView {
    pub key: Seq<char>,
    pub resolution: Seq<char>,
    pub fps: u32,
}

impl View for Rendition {
    type V = RenditionView;

    open spec fn view(&self) -> RenditionView {
        RenditionView { key: self.key@, resolution: self.resolution@, fps: self.fps }
    }
}

/// The six renditions that are probed, best first.
pub open spec fn known_renditions() -> Seq<RenditionView> {
    seq![
        RenditionView { key: "chunked"@, resolution: "1920x1080"@, fps: 60 },
        RenditionView { key: "1080p60"@, resolution: "1920x1080"@, fps: 60 },
        RenditionView { key: "720p60"@, resolution: "1280x720"@, fps: 60 },
        RenditionView { key: "480p30"@, resolution: "854x480"@, fps: 30 },
        RenditionView { key: "360p30"@, resolution: "640x360"@, fps: 30 },
        RenditionView { key: "160p30"@, resolution: "284x160"@, fps: 30 },
    ]
}

fn rendition(key: &str, resolution: &str, fps: u32) -> (r: Rendition)
    ensures
        r@ == (RenditionView { key: key@, resolution: resolution@, fps }),
{
    Rendition { key: key.to_owned(), resolution: resolution.to_owned(), fps }
}

/// The renditions that are probed, in the order of the playlist.
pub fn renditions() -> (list: Vec<Rendition>)
    ensures
        list@.map_values(|r: Rendition| r@) == known_renditions(),
{
    let mut list: Vec<Rendition> = Vec::new();
    list.push(rendition("chunked", "1920x1080", 60));
    list.push(rendition("1080p60", "1920x1080", 60));
    list.push(rendition("720p60", "1280x720", 60));
    list.push(rendition("480p30", "854x480", 30));
    list.push(rendition("360p30", "640x360", 30));
    list.push(rendition("160p30", "284x160", 30));
    assert(list@.map_values(|r: Rendition| r@) =~= known_renditions());
    list
}

/// Seven days in milliseconds.
pub const WEEK_MILLIS: u64 = 604_800_000;

/// The URL of a rendition's playlist on the CDN: a highlight lies
/// under the special id as `highlight-{id}.m3u8`; an upload older than
/// seven days lies under the channel and the video id; anything else
/// under the special id as `index-dvr.m3u8`.
pub open spec fn stream_url(
    domain: Seq<char>,
    special_id: Seq<char>,
    key: Seq<char>,
    vod_id: Seq<char>,
    broadcast_type: Seq<char>,
    age: int,
    channel_login: Seq<char>,
) -> Seq<char> {
    if broadcast_type == "highlight"@ {
        "https://"@ + domain + "/"@ + special_id + "/"@ + key + "/highlight-"@ + vod_id + ".m3u8"@
    } else if broadcast_type == "upload"@ && age > WEEK_MILLIS {
        "https://"@ + domain + "/"@ + channel_login + "/"@ + vod_id + "/"@ + special_id + "/"@ + key
            + "/index-dvr.m3u8"@
    } else {
        "https://"@ + domain + "/"@ + special_id + "/"@ + key + "/index-dvr.m3u8"@
    }
}

/// Builds the URL of a rendition's playlist; `age_millis` is the age
/// of the video in milliseconds.
pub fn build_stream_url(
    domain: &str,
    vod_special_id: &str,
    res_key: &str,
    vod_id: &str,
    broadcast_type: &str,
    age_millis: u64,
    channel_login: &str,
) -> (r: String)
    ensures
        r@ == stream_url(
            domain@,
            vod_special_id@,
            res_key@,
            vod_id@,
            broadcast_type@,
            age_millis as int,
            channel_login@,
        ),
{
    let kind = chars_of(broadcast_type);
    let mut out: Vec<char> = Vec::new();
    append_str(&mut out, "https://");
    append_str(&mut out, domain);
    append_str(&mut out, "/");
    if text_is(&kind, "highlight") {
        append_str(&mut out, vod_special_id);
        append_str(&mut out, "/");
        append_str(&mut out, res_key);
        append_str(&mut out, "/highlight-");
        append_str(&mut out, vod_id);
        append_str(&mut out, ".m3u8");
    } else if text_is(&kind, "upload") && age_millis > WEEK_MILLIS {
        append_str(&mut out, channel_login);
        append_str(&mut out, "/");
        append_str(&mut out, vod_id);
        append_str(&mut out, "/");
        append_str(&mut out, vod_special_id);
        append_str(&mut out, "/");
        append_str(&mut out, res_key);
        append_str(&mut out, "/index-dvr.m3u8");
    } else {
        append_str(&mut out, vod_special_id);
        append_str(&mut out, "/");
        append_str(&mut out, res_key);
        append_str(&mut out, "/index-dvr.m3u8");
    }
    assert(out@ =~= stream_url(
        domain@,
        vod_special_id@,
        res_key@,
        vod_id@,
        broadcast_type@,
        age_millis as int,
        channel_login@,
    ));
    string_of(&out)
}

// ---------------------------------------------------------------------
// Probing
// ---------------------------------------------------------------------

/// What the playlist of a rendition tells about it.
#[derive(Debug, Clone, PartialEq, Eq)]
pub enum ProbeVerdict {
    /// The rendition exists and has this codec.
    Codec(String),
    /// The rendition exists; the initialisation segment at this URL
    /// tells its codec.
    NeedsInit(String),
    /// The playlist names no media: the rendition counts as absent.
    Unavailable,
}

/// The mathematical form of a [`ProbeVerdict`].
pub enum ProbeVerdictView {
    Codec(Seq<char>),
    NeedsInit(Seq<char>),
    Unavailable,
}

impl View for ProbeVerdict {
    type V = ProbeVerdictView;

    open spec fn view(&self) -> ProbeVerdictView {
        match self {
            ProbeVerdict::Codec(c) => ProbeVerdictView::Codec(c@),
            ProbeVerdict::NeedsInit(u) => ProbeVerdictView::NeedsInit(u@),
            ProbeVerdict::Unavailable => ProbeVerdictView::Unavailable,
        }
    }
}

/// The verdict on a playlist body: `.ts` segments mean H.264; `.mp4`
/// segments send to the initialisation segment, whose URL is that of
/// the playlist with `index-dvr.m3u8` replaced by `init-0.mp4`.
pub open spec fn probe_verdict(url: Seq<char>, body: Seq<char>) -> ProbeVerdictView {
    if contains_text(body, ".ts"@) {
        ProbeVerdictView::Codec("avc1.4D001E"@)
    } else if contains_text(body, ".mp4"@) {
        ProbeVerdictView::NeedsInit(replace_all(url, "index-dvr.m3u8"@, "init-0.mp4"@))
    } else {
        ProbeVerdictView::Unavailable
    }
}

/// Judges the playlist `body` that was fetched from `url`.
pub fn classify_playlist(url: &str, body: &str) -> (v: ProbeVerdict)
    ensures
        v@ == probe_verdict(url@, body@),
{
    let text = chars_of(body);
    if contains_in(&text, &chars_of(".ts")) {
        return ProbeVerdict::Codec("avc1.4D001E".to_owned());
    }
    if contains_in(&text, &chars_of(".mp4")) {
        let init = replace_all_exec(
            &chars_of(url),
            &chars_of("index-dvr.m3u8"),
            &chars_of("init-0.mp4"),
        );
        return ProbeVerdict::NeedsInit(string_of(&init));
    }
    ProbeVerdict::Unavailable
}

/// The codec that an initialisation segment tells: H.265 where its
/// body holds `hev1` or where it could not be fetched, else H.264.
pub open spec fn init_codec(body: Option<Seq<char>>) -> Seq<char> {
    match body {
        Some(b) => if contains_text(b, "hev1"@) {
            "hev1.1.6.L93.B0"@
        } else {
            "avc1.4D001E"@
        },
        None => "hev1.1.6.L93.B0"@,
    }
}

/// Tells the codec from the body of the initialisation segment, if it
/// was fetched.
pub fn codec_from_init(body: Option<&str>) -> (codec: String)
    ensures
        codec@ == init_codec(
            match body {
                Some(b) => Some(b@),
                None => None,
            },
        ),
{
    match body {
        Some(b) => {
            if contains_in(&chars_of(b), &chars_of("hev1")) {
                "hev1.1.6.L93.B0".to_owned()
            } else {
                "avc1.4D001E".to_owned()
            }
        },
        None => "hev1.1.6.L93.B0".to_owned(),
    }
}

// ---------------------------------------------------------------------
// The playlist text
// ---------------------------------------------------------------------

/// The bandwidth of the first variant.
pub const START_BANDWIDTH: u64 = 8_534_030;

/// By how much the bandwidth falls from one variant to the next.
pub const BANDWIDTH_STEP: u64 = 100;

/// The bandwidth of the variant at position `k` of a playlist.
pub open spec fn bandwidth_at(k: nat) -> nat {
    if k * BANDWIDTH_STEP >= START_BANDWIDTH {
        0
    } else {
        (START_BANDWIDTH - k * BANDWIDTH_STEP) as nat
    }
}

/// One variant of a master playlist.
pub struct VariantView {
    pub rendition: RenditionView,
    pub codec: Seq<char>,
    pub token: Seq<char>,
}

/// The first lines of a master playlist.
pub open spec fn playlist_header(serving_id: Seq<char>) -> Seq<char> {
    "#EXTM3U\n#EXT-X-TWITCH-INFO:ORIGIN=\"s3\",B=\"false\",REGION=\"EU\",USER-IP=\"127.0.0.1\",SERVING-ID=\""@
        + serving_id
        + "\",CLUSTER=\"cloudfront_vod\",USER-COUNTRY=\"BE\",MANIFEST-CLUSTER=\"cloudfront_vod\""@
}

/// The name under which a rendition is offered: the source rendition
/// `chunked` goes by its height and `p`, taken from what follows the
/// first `x` of its resolution (`1080` where there is no `x`); the
/// others go by their key.
pub open spec fn quality_name(r: RenditionView) -> Seq<char> {
    if r.key == "chunked"@ {
        let a = find_char_from(r.resolution, 'x', 0);
        if a >= r.resolution.len() {
            "1080"@ + "p"@
        } else {
            r.resolution.subrange(a + 1, find_char_from(r.resolution, 'x', a + 1)) + "p"@
        }
    } else {
        r.key
    }
}

/// `YES` for the source rendition, `NO` for the others.
pub open spec fn enabled_word(r: RenditionView) -> Seq<char> {
    if r.key == "chunked"@ {
        "YES"@
    } else {
        "NO"@
    }
}

/// The three lines that a variant adds to a playlist.
pub open spec fn variant_block(v: VariantView, bandwidth: nat) -> Seq<char> {
    "\n#EXT-X-MEDIA:TYPE=VIDEO,GROUP-ID=\""@ + quality_name(v.rendition) + "\",NAME=\""@
        + quality_name(v.rendition) + "\",AUTOSELECT="@ + enabled_word(v.rendition) + ",DEFAULT="@
        + enabled_word(v.rendition) + "\n#EXT-X-STREAM-INF:BANDWIDTH="@ + decimal(bandwidth)
        + ",CODECS=\""@ + v.codec + ",mp4a.40.2\",RESOLUTION="@ + v.rendition.resolution
        + ",VIDEO=\""@ + quality_name(v.rendition) + "\",FRAME-RATE="@ + decimal(
        v.rendition.fps as nat,
    ) + "\n"@ + proxy_path(v.token)
}

/// The text of a master playlist: the header, then the block of each
/// variant, the variant at position `k` with the bandwidth of `k`.
pub open spec fn playlist_text(serving_id: Seq<char>, variants: Seq<VariantView>) -> Seq<char>
    decreases variants.len(),
{
    if variants.len() == 0 {
        playlist_header(serving_id)
    } else {
        playlist_text(serving_id, variants.drop_last()) + variant_block(
            variants.last(),
            bandwidth_at((variants.len() - 1) as nat),
        )
    }
}

/// A master playlist under construction.
pub struct MasterPlaylist {
    text: Vec<char>,
    bandwidth: u64,
    serving_id: Ghost<Seq<char>>,
    variants: Ghost<Seq<VariantView>>,
}

fn quality_name_exec(r: &Rendition) -> (q: Vec<char>)
    ensures
        q@ == quality_name(r@),
{
    let key = chars_of(r.key.as_str());
    if text_is(&key, "chunked") {
        let res = chars_of(r.resolution.as_str());
        let a: usize = find_char(&res, 'x', 0);
        let mut q: Vec<char> = if a >= res.len() {
            chars_of("1080")
        } else {
            let b: usize = find_char(&res, 'x', a + 1);
            slice_of(&res, a + 1, b)
        };
        append_str(&mut q, "p");
        q
    } else {
        key
    }
}

impl MasterPlaylist {
    /// The text is that of the variants added so far.
    pub closed spec fn wf(&self) -> bool {
        &&& self.text@ == playlist_text(self.serving_id@, self.variants@)
        &&& self.bandwidth == bandwidth_at(self.variants@.len())
    }

    /// The serving id in the header.
    pub closed spec fn serving_id(&self) -> Seq<char> {
        self.serving_id@
    }

    /// The variants added so far.
    pub closed spec fn variants(&self) -> Seq<VariantView> {
        self.variants@
    }

    /// A playlist with its header and no variant.
    pub fn begin(serving_id: &str) -> (p: Self)
        ensures
            p.wf(),
            p.serving_id() == serving_id@,
            p.variants() == Seq::<VariantView>::empty(),
    {
        let mut text: Vec<char> = Vec::new();
        append_str(
            &mut text,
            "#EXTM3U\n#EXT-X-TWITCH-INFO:ORIGIN=\"s3\",B=\"false\",REGION=\"EU\",USER-IP=\"127.0.0.1\",SERVING-ID=\"",
        );
        append_str(&mut text, serving_id);
        append_str(
            &mut text,
            "\",CLUSTER=\"cloudfront_vod\",USER-COUNTRY=\"BE\",MANIFEST-CLUSTER=\"cloudfront_vod\"",
        );
        assert(text@ =~= playlist_header(serving_id@));
        MasterPlaylist {
            text,
            bandwidth: START_BANDWIDTH,
            serving_id: Ghost(serving_id@),
            variants: Ghost(Seq::empty()),
        }
    }

    /// Adds a variant: the rendition with its codec, served under the
    /// proxy path of `token`.
    pub fn push_variant(&mut self, rendition: &Rendition, codec: &str, token: &str)
        requires
            old(self).wf(),
        ensures
            final(self).wf(),
            final(self).serving_id() == old(self).serving_id(),
            final(self).variants() == old(self).variants().push(
                VariantView { rendition: rendition@, codec: codec@, token: token@ },
            ),
    {
        let ghost v = VariantView { rendition: rendition@, codec: codec@, token: token@ };
        let ghost before = self.text@;
        let quality = quality_name_exec(rendition);
        let key = chars_of(rendition.key.as_str());
        let source = text_is(&key, "chunked");
        let mut block: Vec<char> = Vec::new();
        append_str(&mut block, "\n#EXT-X-MEDIA:TYPE=VIDEO,GROUP-ID=\"");
        append(&mut block, &quality);
        append_str(&mut block, "\",NAME=\"");
        append(&mut block, &quality);
        append_str(&mut block, "\",AUTOSELECT=");
        append_str(&mut block, if source { "YES" } else { "NO" });
        append_str(&mut block, ",DEFAULT=");
        append_str(&mut block, if source { "YES" } else { "NO" });
        append_str(&mut block, "\n#EXT-X-STREAM-INF:BANDWIDTH=");
        push_decimal(&mut block, self.bandwidth);
        append_str(&mut block, ",CODECS=\"");
        append_str(&mut block, codec);
        append_str(&mut block, ",mp4a.40.2\",RESOLUTION=");
        append_str(&mut block, rendition.resolution.as_str());
        append_str(&mut block, ",VIDEO=\"");
        append(&mut block, &quality);
        append_str(&mut block, "\",FRAME-RATE=");
        push_decimal(&mut block, rendition.fps as u64);
        append_str(&mut block, "\n");
        append_str(&mut block, "/api/stream/variant.m3u8?id=");
        push_percent_encoded(&mut block, token);
        assert(block@ =~= variant_block(v, self.bandwidth as nat));
        append(&mut self.text, &block);
        self.bandwidth = if self.bandwidth >= BANDWIDTH_STEP {
            self.bandwidth - BANDWIDTH_STEP
        } else {
            0
        };
        proof {
            let grown = self.variants@.push(v);
            assert(grown.drop_last() =~= self.variants@);
            assert(grown.last() == v);
            self.variants@ = grown;
        }
    }

    /// Registers the CDN URL of a rendition that was found available
    /// and adds the variant under the token of the registration.  A URL
    /// that the registry refuses adds nothing.
    pub fn add_variant(
        &mut self,
        targets: &mut TimedCache<String>,
        rendition: &Rendition,
        codec: &str,
        stream_url: &str,
    ) -> (added: Option<String>)
        requires
            old(self).wf(),
            old(targets).wf(),
        ensures
            final(self).wf(),
            final(targets).wf(),
            final(self).serving_id() == old(self).serving_id(),
            match added {
                Some(token) => {
                    &&& validated(stream_url@) is Ok
                    &&& is_proxy_token(token@)
                    &&& final(self).variants() == old(self).variants().push(
                        VariantView { rendition: rendition@, codec: codec@, token: token@ },
                    )
                    &&& final(targets)@ == old(targets)@.insert(
                        proxy_key(token@),
                        final(targets)@[proxy_key(token@)],
                    )
                    &&& final(targets)@[proxy_key(token@)].value@ == validated(stream_url@)->Ok_0
                    &&& exists|now: u128|
                        final(targets)@[proxy_key(token@)].expires == #[trigger] expiry(
                            now,
                            TARGET_TTL_SECS,
                        )
                },
                None => {
                    &&& validated(stream_url@) is Err
                    &&& final(self).variants() == old(self).variants()
                    &&& final(targets)@ == old(targets)@
                },
            },
    {
        match register_variant_proxy_target(targets, stream_url) {
            Ok(token) => {
                self.push_variant(rendition, codec, token.as_str());
                Some(token)
            },
            Err(_) => None,
        }
    }

    /// The text of the playlist.
    pub fn finish(self) -> (text: String)
        requires
            self.wf(),
        ensures
            text@ == playlist_text(self.serving_id(), self.variants()),
    {
        string_of(&self.text)
    }
}

/// Along a playlist the bandwidth falls strictly from each variant to
/// the next, as long as it has not reached zero.
pub proof fn lemma_bandwidth_strictly_decreases(i: nat, j: nat)
    requires
        i < j,
        bandwidth_at(i) > 0,
    ensures
        bandwidth_at(j) < bandwidth_at(i),
{
}

/// The six known renditions all get a positive bandwidth, each lower
/// than the one before.
pub proof fn lemma_known_renditions_bandwidths(k: nat)
    requires
        k < known_renditions().len(),
    ensures
        bandwidth_at(k) == START_BANDWIDTH - k * BANDWIDTH_STEP,
        bandwidth_at(k) > 0,
        k > 0 ==> bandwidth_at(k) < bandwidth_at((k - 1) as nat),
{
}

// ---------------------------------------------------------------------
// The request for a playlist
// ---------------------------------------------------------------------

/// Why no master playlist is made for a video.
#[derive(Debug, Clone, Copy, PartialEq, Eq, Structural)]
pub enum ManifestError {
    /// The identifier is not one of a video.
    InvalidId,
    /// The platform knows no such video.
    NotFound,
    /// The video has no URL of seek previews.
    MissingPreviews,
    /// The video has no owner.
    MissingOwner,
    /// The URL of the seek previews gives no domain and special id.
    Previews(VodUrlError),
}

/// The text of each error.
pub open spec fn manifest_error_text(e: ManifestError) -> Seq<char> {
    match e {
        ManifestError::InvalidId => "Invalid VOD identifier"@,
        ManifestError::NotFound => "Video not found"@,
        ManifestError::MissingPreviews => "Missing seekPreviewsURL"@,
        ManifestError::MissingOwner => "Missing owner.login"@,
        ManifestError::Previews(VodUrlError::NoSchemeSeparator) => "No '//' found in URL"@,
        ManifestError::Previews(VodUrlError::NoPath) => "No path separator found"@,
        ManifestError::Previews(VodUrlError::NoStoryboards) => "Cannot find storyboards in URL"@,
        ManifestError::Previews(VodUrlError::EmptySpecialId) => "Empty vodSpecialID"@,
    }
}

impl ManifestError {
    /// The message of the error.
    pub fn message(&self) -> (m: String)
        ensures
            m@ == manifest_error_text(*self),
    {
        match self {
            ManifestError::InvalidId => "Invalid VOD identifier".to_owned(),
            ManifestError::NotFound => "Video not found".to_owned(),
            ManifestError::MissingPreviews => "Missing seekPreviewsURL".to_owned(),
            ManifestError::MissingOwner => "Missing owner.login".to_owned(),
            ManifestError::Previews(VodUrlError::NoSchemeSeparator) => "No '//' found in URL".to_owned(),
            ManifestError::Previews(VodUrlError::NoPath) => "No path separator found".to_owned(),
            ManifestError::Previews(VodUrlError::NoStoryboards) => "Cannot find storyboards in URL".to_owned(),
            ManifestError::Previews(VodUrlError::EmptySpecialId) => "Empty vodSpecialID".to_owned(),
        }
    }
}

/// A video identifier is escaped to itself.
pub proof fn lemma_vod_id_needs_no_escape(id: Seq<char>)
    requires
        is_vod_id(id),
    ensures
        escaped(id) == id,
{
    assert forall|i: int| 0 <= i < id.len() implies crate::gql::is_json_plain(#[trigger] id[i]) by {
        assert(is_id_char(id[i]));
    }
    crate::gql::lemma_plain_text_needs_no_escape(id);
}

/// What is asked of the platform for the video `vod_id`: the
/// identifier, trimmed, must be one of a video; it is returned, as it
/// stands in the query, beside the query.
pub fn prepare_vod_request(vod_id: &str) -> (r: Result<(String, String), ManifestError>)
    ensures
        match r {
            Ok((safe_id, query)) => {
                &&& is_vod_id(trim_ws(vod_id@))
                &&& safe_id@ == trim_ws(vod_id@)
                &&& query@ == vod_manifest_query_text(trim_ws(vod_id@))
            },
            Err(e) => e == ManifestError::InvalidId && !is_vod_id(trim_ws(vod_id@)),
        },
{
    let trimmed = string_of(&trim_ws_exec(&chars_of(vod_id)));
    if !is_vod_id_exec(trimmed.as_str()) {
        return Err(ManifestError::InvalidId);
    }
    proof {
        lemma_vod_id_needs_no_escape(trimmed@);
    }
    let safe_id = gql_escape(trimmed.as_str());
    let query = vod_manifest_query(trimmed.as_str());
    Ok((safe_id, query))
}

/// What the platform tells of a video.
#[derive(Debug, Clone, PartialEq, Eq)]
pub struct VodMeta {
    pub seek_previews_url: Option<String>,
    pub owner_login: Option<String>,
    pub broadcast_type: Option<String>,
    pub created_at: Option<String>,
}

/// Where the renditions of a video lie.
#[derive(Debug, Clone, PartialEq, Eq)]
pub struct VodSource {
    pub domain: String,
    pub special_id: String,
    pub vod_id: String,
    /// The kind of the video, in lower case.
    pub broadcast_type: String,
    /// The age of the video, in milliseconds.
    pub age_millis: u64,
    pub channel_login: String,
}

/// The mathematical form of a [`VodSource`].
pub struct VodSourceView {
    pub domain: Seq<char>,
    pub special_id: Seq<char>,
    pub vod_id: Seq<char>,
    pub broadcast_type: Seq<char>,
    pub age_millis: u64,
    pub channel_login: Seq<char>,
}

impl View for VodSource {
    type V = VodSourceView;

    open spec fn view(&self) -> VodSourceView {
        VodSourceView {
            domain: self.domain@,
            special_id: self.special_id@,
            vod_id: self.vod_id@,
            broadcast_type: self.broadcast_type@,
            age_millis: self.age_millis,
            channel_login: self.channel_login@,
        }
    }
}

/// The text of an optional string, or nothing.
pub open spec fn text_of(s: Option<String>) -> Option<Seq<char>> {
    match s {
        Some(t) => Some(t@),
        None => None,
    }
}

/// The source of a video, from what the platform tells of it at the
/// instant `now_millis`: the video must be known and have a URL of
/// seek previews and an owner, in this order; domain and special id
/// are read from the URL; a video without kind counts as an archive,
/// and one without creation time has the age zero.
pub open spec fn planned_source(
    vod_id: Seq<char>,
    seek_previews_url: Option<Seq<char>>,
    owner_login: Option<Seq<char>>,
    broadcast_type: Option<Seq<char>>,
    created_at: Option<Seq<char>>,
    now_millis: u64,
) -> Result<VodSourceView, ManifestError> {
    match (seek_previews_url, owner_login) {
        (None, _) => Err(ManifestError::MissingPreviews),
        (Some(_), None) => Err(ManifestError::MissingOwner),
        (Some(url), Some(login)) => match vod_url_info(url) {
            Err(e) => Err(ManifestError::Previews(e)),
            Ok((domain, special_id)) => Ok(
                VodSourceView {
                    domain,
                    special_id,
                    vod_id,
                    broadcast_type: lowercased(
                        match broadcast_type {
                            Some(k) => k,
                            None => "archive"@,
                        },
                    ),
                    age_millis: age_millis(
                        match created_at {
                            Some(c) => c,
                            None => Seq::empty(),
                        },
                        now_millis,
                    ) as u64,
                    channel_login: login,
                },
            ),
        },
    }
}

/// Plans the source of the video `vod_id` from what the platform
/// tells of it; `meta` is nothing where the platform knows no such
/// video.
pub fn plan_vod_source(vod_id: &str, meta: Option<&VodMeta>, now_millis: u64) -> (r: Result<
    VodSource,
    ManifestError,
>)
    ensures
        match (r, meta) {
            (Err(e), None) => e == ManifestError::NotFound,
            (Ok(_), None) => false,
            (Ok(source), Some(m)) => planned_source(
                vod_id@,
                text_of(m.seek_previews_url),
                text_of(m.owner_login),
                text_of(m.broadcast_type),
                text_of(m.created_at),
                now_millis,
            ) == Ok::<VodSourceView, ManifestError>(source@),
            (Err(e), Some(m)) => planned_source(
                vod_id@,
                text_of(m.seek_previews_url),
                text_of(m.owner_login),
                text_of(m.broadcast_type),
                text_of(m.created_at),
                now_millis,
            ) == Err::<VodSourceView, ManifestError>(e),
        },
{
    let m = match meta {
        Some(m) => m,
        None => {
            return Err(ManifestError::NotFound);
        },
    };
    let url = match &m.seek_previews_url {
        Some(u) => u,
        None => {
            return Err(ManifestError::MissingPreviews);
        },
    };
    let login = match &m.owner_login {
        Some(l) => l,
        None => {
            return Err(ManifestError::MissingOwner);
        },
    };
    let (domain, special_id) = match parse_vod_url_info(url.as_str()) {
        Ok(pair) => pair,
        Err(e) => {
            return Err(ManifestError::Previews(e));
        },
    };
    let kind = match &m.broadcast_type {
        Some(k) => to_lowercase(k.as_str()),
        None => to_lowercase("archive"),
    };
    let age: u64 = match &m.created_at {
        Some(c) => elapsed_millis_since(c.as_str(), now_millis),
        None => {
            proof {
                reveal_strlit("");
                assert(""@ =~= Seq::<char>::empty());
            }
            elapsed_millis_since("", now_millis)
        },
    };
    Ok(
        VodSource {
            domain,
            special_id,
            vod_id: vod_id.to_owned(),
            broadcast_type: kind,
            age_millis: age,
            channel_login: login.clone(),
        },
    )
}

impl VodSource {
    /// The URL of the playlist of the rendition `key`.
    pub fn rendition_url(&self, key: &str) -> (url: String)
        ensures
            url@ == stream_url(
                self@.domain,
                self@.special_id,
                key@,
                self@.vod_id,
                self@.broadcast_type,
                self@.age_millis as int,
                self@.channel_login,
            ),
    {
        build_stream_url(
            self.domain.as_str(),
            self.special_id.as_str(),
            key,
            self.vod_id.as_str(),
            self.broadcast_type.as_str(),
            self.age_millis,
            self.channel_login.as_str(),
        )
    }
}

// ---------------------------------------------------------------------
// Making a playlist step by step
// ---------------------------------------------------------------------

/// What the maker of a playlist needs next.
#[derive(Debug, Clone, PartialEq, Eq)]
pub enum ManifestStep {
    /// The playlist of a rendition, from this URL.
    FetchPlaylist(String),
    /// The initialisation segment of a rendition, from this URL.
    FetchInit(String),
    /// Nothing: every rendition has been looked at.
    Finished,
}

/// The mathematical form of a [`ManifestStep`].
pub enum ManifestStepView {
    FetchPlaylist(Seq<char>),
    FetchInit(Seq<char>),
    Finished,
}

impl View for ManifestStep {
    type V = ManifestStepView;

    open spec fn view(&self) -> ManifestStepView {
        match self {
            ManifestStep::FetchPlaylist(u) => ManifestStepView::FetchPlaylist(u@),
            ManifestStep::FetchInit(u) => ManifestStepView::FetchInit(u@),
            ManifestStep::Finished => ManifestStepView::Finished,
        }
    }
}

/// The making of the master playlist of one video: the known
/// renditions are looked at in order; what is fetched for each is
/// handed in, and each rendition found available is registered and
/// added to the playlist.
pub struct ManifestJob {
    source: VodSource,
    list: Vec<Rendition>,
    index: usize,
    pending: Option<String>,
    playlist: MasterPlaylist,
}

/// The URL of the playlist of the known rendition at `position`.
pub open spec fn rendition_playlist_url(source: VodSourceView, position: int) -> Seq<char> {
    stream_url(
        source.domain,
        source.special_id,
        known_renditions()[position].key,
        source.vod_id,
        source.broadcast_type,
        source.age_millis as int,
        source.channel_login,
    )
}

/// The step from `before` to `after` concludes the rendition at hand
/// with the codec `codec`: the making moves on to the next rendition;
/// where the registry accepts the URL of the rendition, it holds the
/// sanitized URL under a token for the time that a target lives,
/// nothing else in it has changed, and the playlist has one more
/// variant, served under that token; where it refuses the URL,
/// registry and playlist stay as they are.
pub open spec fn concluded(
    before: ManifestJob,
    after: ManifestJob,
    codec: Seq<char>,
    targets_before: Map<Seq<char>, crate::cache::CacheSlot<String>>,
    targets_after: Map<Seq<char>, crate::cache::CacheSlot<String>>,
) -> bool {
    let url = rendition_playlist_url(before.source(), before.position() as int);
    &&& after.position() == before.position() + 1
    &&& after.awaited() is None
    &&& match validated(url) {
        Ok(sanitized) => exists|token: Seq<char>|
            {
                &&& is_proxy_token(token)
                &&& #[trigger] targets_after.contains_key(proxy_key(token))
                &&& targets_after == targets_before.insert(
                    proxy_key(token),
                    targets_after[proxy_key(token)],
                )
                &&& targets_after[proxy_key(token)].value@ == sanitized
                &&& exists|now: u128|
                    targets_after[proxy_key(token)].expires == #[trigger] expiry(
                        now,
                        TARGET_TTL_SECS,
                    )
                &&& after.variants() == before.variants().push(
                    VariantView {
                        rendition: known_renditions()[before.position() as int],
                        codec,
                        token,
                    },
                )
            },
        Err(_) => after.variants() == before.variants() && targets_after == targets_before,
    }
}

/// The step from `before` to `after` changes nothing but the place in
/// the making: the position and what is awaited.
pub open spec fn moved(
    before: ManifestJob,
    after: ManifestJob,
    position: nat,
    awaited: Option<Seq<char>>,
) -> bool {
    &&& after.position() == position
    &&& after.awaited() == awaited
    &&& after.variants() == before.variants()
}

impl ManifestJob {
    /// The playlist is sound, and the renditions are the known ones.
    pub closed spec fn wf(&self) -> bool {
        &&& self.playlist.wf()
        &&& self.index <= self.list@.len()
        &&& self.list@.map_values(|r: Rendition| r@) == known_renditions()
        &&& (self.pending is Some ==> self.index < self.list@.len())
    }

    /// Where the renditions of the video lie.
    pub closed spec fn source(&self) -> VodSourceView {
        self.source@
    }

    /// How many renditions have been concluded.
    pub closed spec fn position(&self) -> nat {
        self.index as nat
    }

    /// The URL of the initialisation segment that is awaited, if any.
    pub closed spec fn awaited(&self) -> Option<Seq<char>> {
        text_of(self.pending)
    }

    /// The variants of the playlist so far.
    pub closed spec fn variants(&self) -> Seq<VariantView> {
        self.playlist.variants()
    }

    /// The serving id of the playlist.
    pub closed spec fn serving_id(&self) -> Seq<char> {
        self.playlist.serving_id()
    }

    /// What is needed next: nothing once all known renditions are
    /// concluded; else the awaited initialisation segment, or the
    /// playlist of the rendition at hand.
    pub open spec fn next_step(&self) -> ManifestStepView {
        if self.position() >= known_renditions().len() {
            ManifestStepView::Finished
        } else {
            match self.awaited() {
                Some(u) => ManifestStepView::FetchInit(u),
                None => ManifestStepView::FetchPlaylist(
                    rendition_playlist_url(self.source(), self.position() as int),
                ),
            }
        }
    }

    /// Starts the making of a playlist with the serving id given.
    pub fn start(source: VodSource, serving_id: &str) -> (job: Self)
        ensures
            job.wf(),
            job.source() == source@,
            job.position() == 0,
            job.awaited() is None,
            job.variants() == Seq::<VariantView>::empty(),
            job.serving_id() == serving_id@,
    {
        ManifestJob {
            source,
            list: renditions(),
            index: 0,
            pending: None,
            playlist: MasterPlaylist::begin(serving_id),
        }
    }

    fn current_url(&self) -> (url: String)
        requires
            self.wf(),
            self.position() < known_renditions().len(),
        ensures
            url@ == rendition_playlist_url(self.source(), self.position() as int),
    {
        assert(self.list@.map_values(|r: Rendition| r@)[self.index as int] == self.list@[self.index as int]@);
        self.source.rendition_url(self.list[self.index].key.as_str())
    }

    /// Tells what is needed next.
    pub fn step(&self) -> (step: ManifestStep)
        requires
            self.wf(),
        ensures
            step@ == self.next_step(),
    {
        assert(self.list@.map_values(|r: Rendition| r@).len() == self.list@.len());
        if self.index >= self.list.len() {
            ManifestStep::Finished
        } else {
            match &self.pending {
                Some(u) => ManifestStep::FetchInit(u.clone()),
                None => ManifestStep::FetchPlaylist(self.current_url()),
            }
        }
    }

    fn conclude(&mut self, targets: &mut TimedCache<String>, codec: &str)
        requires
            old(self).wf(),
            old(targets).wf(),
            old(self).position() < known_renditions().len(),
        ensures
            final(self).wf(),
            final(targets).wf(),
            final(self).source() == old(self).source(),
            final(self).serving_id() == old(self).serving_id(),
            concluded(*old(self), *final(self), codec@, old(targets)@, final(targets)@),
    {
        let url = self.current_url();
        assert(self.list@.map_values(|r: Rendition| r@)[self.index as int] == self.list@[self.index as int]@);
        assert(self.list@.map_values(|r: Rendition| r@).len() == self.list@.len());
        let added = self.playlist.add_variant(targets, &self.list[self.index], codec, url.as_str());
        self.index = self.index + 1;
        self.pending = None;
        proof {
            match added {
                Some(token) => {
                    assert(targets@.contains_key(proxy_key(token@)));
                },
                None => {},
            }
        }
    }

    /// Takes the playlist of the rendition at hand: `body` is its text,
    /// or nothing where it could not be had.  Outside of a step that
    /// asks for a playlist nothing happens.
    pub fn playlist_fetched(&mut self, targets: &mut TimedCache<String>, body: Option<&str>)
        requires
            old(self).wf(),
            old(targets).wf(),
        ensures
            final(self).wf(),
            final(targets).wf(),
            final(self).source() == old(self).source(),
            final(self).serving_id() == old(self).serving_id(),
            match (old(self).next_step(), body) {
                (ManifestStepView::FetchPlaylist(url), Some(b)) => match probe_verdict(url, b@) {
                    ProbeVerdictView::Codec(codec) => concluded(
                        *old(self),
                        *final(self),
                        codec,
                        old(targets)@,
                        final(targets)@,
                    ),
                    ProbeVerdictView::NeedsInit(init) => moved(
                        *old(self),
                        *final(self),
                        old(self).position(),
                        Some(init),
                    ) && final(targets)@ == old(targets)@,
                    ProbeVerdictView::Unavailable => moved(
                        *old(self),
                        *final(self),
                        old(self).position() + 1,
                        None,
                    ) && final(targets)@ == old(targets)@,
                },
                (ManifestStepView::FetchPlaylist(_), None) => moved(
                    *old(self),
                    *final(self),
                    old(self).position() + 1,
                    None,
                ) && final(targets)@ == old(targets)@,
                _ => moved(*old(self), *final(self), old(self).position(), old(self).awaited())
                    && final(targets)@ == old(targets)@,
            },
    {
        assert(self.list@.map_values(|r: Rendition| r@).len() == self.list@.len());
        if self.index >= self.list.len() || self.pending.is_some() {
            return ;
        }
        let text = match body {
            Some(b) => b,
            None => {
                self.index = self.index + 1;
                return ;
            },
        };
        let url = self.current_url();
        match classify_playlist(url.as_str(), text) {
            ProbeVerdict::Codec(codec) => {
                self.conclude(targets, codec.as_str());
            },
            ProbeVerdict::NeedsInit(init) => {
                self.pending = Some(init);
            },
            ProbeVerdict::Unavailable => {
                self.index = self.index + 1;
            },
        }
    }

    /// Takes the initialisation segment that was asked for: `body` is
    /// its text, or nothing where it could not be had.  Outside of a
    /// step that asks for a segment nothing happens.
    pub fn init_fetched(&mut self, targets: &mut TimedCache<String>, body: Option<&str>)
        requires
            old(self).wf(),
            old(targets).wf(),
        ensures
            final(self).wf(),
            final(targets).wf(),
            final(self).source() == old(self).source(),
            final(self).serving_id() == old(self).serving_id(),
            match old(self).next_step() {
                ManifestStepView::FetchInit(_) => concluded(
                    *old(self),
                    *final(self),
                    init_codec(
                        match body {
                            Some(b) => Some(b@),
                            None => None,
                        },
                    ),
                    old(targets)@,
                    final(targets)@,
                ),
                _ => moved(*old(self), *final(self), old(self).position(), old(self).awaited())
                    && final(targets)@ == old(targets)@,
            },
    {
        assert(self.list@.map_values(|r: Rendition| r@).len() == self.list@.len());
        if self.index >= self.list.len() || self.pending.is_none() {
            return ;
        }
        let codec = codec_from_init(body);
        self.conclude(targets, codec.as_str());
    }

    /// The text of the playlist as it stands.
    pub fn finish(self) -> (text: String)
        requires
            self.wf(),
        ensures
            text@ == playlist_text(self.serving_id(), self.variants()),
    {
        self.playlist.finish()
    }
}

/// The form of a serving id: 32 lower-case hexadecimal digits.
pub open spec fn is_serving_id(s: Seq<char>) -> bool {
    s.len() == 32 && forall|i: int| 0 <= i < 32 ==> is_hex_lower(#[trigger] s[i])
}

/// A fresh serving id: a random token without its hyphens.
pub fn create_serving_id() -> (id: String)
    ensures
        is_serving_id(id@),
{
    let token = chars_of(fresh_token().as_str());
    let mut out: Vec<char> = Vec::new();
    let mut i: usize = 0;
    while i < 36
        invariant
            i <= 36,
            is_proxy_token(token@),
            out@.len() == i - (if i > 23 {
                4int
            } else if i > 18 {
                3int
            } else if i > 13 {
                2int
            } else if i > 8 {
                1int
            } else {
                0int
            }),
            forall|j: int| 0 <= j < out@.len() ==> is_hex_lower(#[trigger] out@[j]),
        decreases 36 - i,
    {
        let c: char = token[i];
        assert(token_char_ok(i as int, token@[i as int]));
        if c != '-' {
            out.push(c);
        }
        i += 1;
    }
    string_of(&out)
}

} // verus!
