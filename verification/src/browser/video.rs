//! Videos on a page: the YouTube video of a watch URL, HLS and DASH
//! manifests named in the page, and `<video src>` elements.
use vstd::prelude::*;
use crate::text::{
    chars_of, contains_seq, find_from, find_from_exec, lemma_find_from, lemma_find_skip, starts_with,
    starts_with_exec, str_contains, str_eq, string_from,
};
use crate::urls::{pairs_view, parse_url, url_parse};

verus! {

#[derive(Debug, Clone, Copy, PartialEq, Eq, Structural)]
pub enum VideoType {
    Direct,
    YouTube,
    Hls,
    Dash,
    Unknown,
}

pub struct VideoInfo {
    pub title: String,
    pub src: String,
    pub video_type: VideoType,
}

pub struct VideoInfoView {
    pub title: Seq<char>,
    pub src: Seq<char>,
    pub video_type: VideoType,
}

impl View for VideoInfo {
    type V = VideoInfoView;

    open spec fn view(&self) -> VideoInfoView {
        VideoInfoView { title: self.title@, src: self.src@, video_type: self.video_type }
    }
}

impl Clone for VideoInfo {
    fn clone(&self) -> (r: Self)
        ensures
            r@ == self@,
    {
        VideoInfo { title: self.title.clone(), src: self.src.clone(), video_type: self.video_type }
    }
}

pub open spec fn infos_view(v: Seq<VideoInfo>) -> Seq<VideoInfoView> {
    v.map_values(|x: VideoInfo| x@)
}

/// The kind of video a URL points to.
pub open spec fn classify_spec(url: Seq<char>) -> VideoType {
    if contains_seq(url, ".m3u8"@) {
        VideoType::Hls
    } else if contains_seq(url, ".mpd"@) {
        VideoType::Dash
    } else if contains_seq(url, "youtube.com"@) || contains_seq(url, "youtu.be"@) {
        VideoType::YouTube
    } else {
        VideoType::Direct
    }
}

pub fn classify(url: &str) -> (r: VideoType)
    ensures
        r == classify_spec(url@),
{
    if str_contains(url, ".m3u8") {
        VideoType::Hls
    } else if str_contains(url, ".mpd") {
        VideoType::Dash
    } else if str_contains(url, "youtube.com") || str_contains(url, "youtu.be") {
        VideoType::YouTube
    } else {
        VideoType::Direct
    }
}

/// The value of the first query pair named `key`.
pub open spec fn find_pair(q: Seq<(Seq<char>, Seq<char>)>, key: Seq<char>) -> Option<Seq<char>>
    decreases q.len(),
{
    if q.len() == 0 {
        None
    } else if q[0].0 == key {
        Some(q[0].1)
    } else {
        find_pair(q.drop_first(), key)
    }
}

/// `s` without its leading `/` characters.
pub open spec fn strip_slashes(s: Seq<char>) -> Seq<char>
    decreases s.len(),
{
    if s.len() > 0 && s[0] == '/' {
        strip_slashes(s.drop_first())
    } else {
        s
    }
}

/// The video id of a YouTube URL: its `v` parameter, else a path of a
/// single segment.
pub open spec fn youtube_id(url: Seq<char>) -> Option<Seq<char>> {
    match url_parse(url) {
        None => None,
        Some(u) => match find_pair(u.query, "v"@) {
            Some(v) => Some(v),
            None => {
                let p = strip_slashes(u.path);
                if p.len() > 0 && !p.contains('/') {
                    Some(p)
                } else {
                    None
                }
            },
        },
    }
}

fn find_pair_exec(q: &Vec<(String, String)>, key: &str) -> (r: Option<String>)
    ensures
        match r {
            Some(v) => find_pair(pairs_view(q@), key@) == Some(v@),
            None => find_pair(pairs_view(q@), key@) is None,
        },
{
    let ghost qv = pairs_view(q@);
    let mut i: usize = 0;
    assert(qv.skip(0) =~= qv);
    while i < q.len()
        invariant
            i <= q@.len(),
            qv == pairs_view(q@),
            find_pair(qv, key@) == find_pair(qv.skip(i as int), key@),
        decreases q@.len() - i,
    {
        assert(qv.skip(i as int)[0] == (q@[i as int].0@, q@[i as int].1@));
        if str_eq(q[i].0.as_str(), key) {
            return Some(q[i].1.clone());
        }
        assert(qv.skip(i as int).drop_first() =~= qv.skip(i + 1));
        i = i + 1;
    }
    None
}

/// The video id of a YouTube URL; see `youtube_id`.
pub fn extract_youtube_id(url: &str) -> (r: Option<String>)
    ensures
        match r {
            Some(id) => youtube_id(url@) == Some(id@),
            None => youtube_id(url@) is None,
        },
{
    let parsed = match parse_url(url) {
        Ok(u) => u,
        Err(_) => return None,
    };
    match find_pair_exec(&parsed.query, "v") {
        Some(v) => return Some(v),
        None => {},
    }
    let path = chars_of(parsed.path.as_str());
    let mut a: usize = 0;
    assert(path@.skip(0) =~= path@);
    while a < path.len() && path[a] == '/'
        invariant
            a <= path@.len(),
            strip_slashes(path@) == strip_slashes(path@.skip(a as int)),
        decreases path@.len() - a,
    {
        assert(path@.skip(a as int).drop_first() =~= path@.skip(a + 1));
        a = a + 1;
    }
    let mut rest: Vec<char> = Vec::new();
    let mut has_slash = false;
    let mut k = a;
    while k < path.len()
        invariant
            a <= k <= path@.len(),
            rest@ == path@.subrange(a as int, k as int),
            has_slash == rest@.contains('/'),
        decreases path@.len() - k,
    {
        if path[k] == '/' {
            has_slash = true;
        }
        let ghost before = rest@;
        rest.push(path[k]);
        k = k + 1;
        assert(rest@ =~= path@.subrange(a as int, k as int));
        assert(rest@ == before.push(path@[k - 1]));
        assert(rest@.contains('/') == (before.contains('/') || path@[k - 1] == '/')) by {
            if path@[k - 1] == '/' {
                assert(rest@[rest@.len() - 1] == '/');
            }
            if before.contains('/') {
                let j = choose|j: int| 0 <= j < before.len() && before[j] == '/';
                assert(rest@[j] == '/');
            }
            if rest@.contains('/') {
                let j = choose|j: int| 0 <= j < rest@.len() && rest@[j] == '/';
                if j < before.len() {
                    assert(before[j] == '/');
                }
            }
        }
    }
    assert(rest@ =~= path@.skip(a as int));
    assert(strip_slashes(path@.skip(a as int)) == path@.skip(a as int));
    if rest.len() > 0 && !has_slash {
        Some(string_from(rest.as_slice()))
    } else {
        None
    }
}

/// The URL of a streaming manifest named in the page: from just after the
/// last quote before the first `ext` to the end of `ext`, when it starts
/// with `http` or `/`.
pub open spec fn manifest_url(html: Seq<char>, ext: Seq<char>) -> Option<Seq<char>> {
    match find_from(html, ext, 0) {
        None => None,
        Some(idx) => match last_quote(html, idx) {
            None => None,
            Some(q) => {
                let url = html.subrange(q + 1, idx + ext.len());
                if starts_with(url, "http"@) || starts_with(url, "/"@) {
                    Some(url)
                } else {
                    None
                }
            },
        },
    }
}

/// The last position before `end` holding `"` or `'`.
pub open spec fn last_quote(s: Seq<char>, end: int) -> Option<int>
    decreases end,
{
    if end <= 0 {
        None
    } else if s[end - 1] == '"' || s[end - 1] == '\'' {
        Some(end - 1)
    } else {
        last_quote(s, end - 1)
    }
}

/// The manifest URL for `ext`; see `manifest_url`.
pub fn extract_manifest_url(html: &[char], ext: &str) -> (r: Option<String>)
    ensures
        match r {
            Some(u) => manifest_url(html@, ext@) == Some(u@),
            None => manifest_url(html@, ext@) is None,
        },
{
    let e = chars_of(ext);
    proof {
        lemma_find_from(html@, e@, 0);
    }
    let idx = match find_from_exec(html, e.as_slice(), 0) {
        Some(i) => i,
        None => return None,
    };
    let mut j = idx;
    while j > 0 && !(html[j - 1] == '"' || html[j - 1] == '\'')
        invariant
            j <= idx,
            idx + e@.len() <= html@.len(),
            last_quote(html@, idx as int) == last_quote(html@, j as int),
        decreases j,
    {
        j = j - 1;
    }
    if j == 0 {
        return None;
    }
    let start = j;
    let end = idx + e.len();
    let mut url: Vec<char> = Vec::new();
    let mut k = start;
    while k < end
        invariant
            start <= k <= end <= html@.len(),
            url@ == html@.subrange(start as int, k as int),
        decreases end - k,
    {
        url.push(html[k]);
        k = k + 1;
        assert(url@ =~= html@.subrange(start as int, k as int));
    }
    let http = chars_of("http");
    let slash = chars_of("/");
    if starts_with_exec(url.as_slice(), http.as_slice()) || starts_with_exec(url.as_slice(), slash.as_slice()) {
        Some(string_from(url.as_slice()))
    } else {
        None
    }
}

/// `attr="value"`: the value after the first such opening, up to the next
/// double quote.
pub open spec fn dq_attr(frag: Seq<char>, attr: Seq<char>) -> Option<Seq<char>> {
    let needle = attr + "=\""@;
    match find_from(frag, needle, 0) {
        None => None,
        Some(st) => {
            let start = st + needle.len();
            match find_from(frag, "\""@, start) {
                None => None,
                Some(end) => Some(frag.subrange(start, end)),
            }
        },
    }
}

/// `dq_attr` of the text from `from` on.
fn dq_attr_from(h: &[char], from: usize, attr: &str) -> (r: Option<String>)
    requires
        from <= h@.len(),
    ensures
        match r {
            Some(v) => dq_attr(h@.skip(from as int), attr@) == Some(v@),
            None => dq_attr(h@.skip(from as int), attr@) is None,
        },
{
    proof {
        reveal_strlit("=\"");
        reveal_strlit("\"");
    }
    let mut needle = chars_of(attr);
    needle.push('=');
    needle.push('"');
    assert(needle@ =~= attr@ + "=\""@);
    let q = chars_of("\"");
    let ghost t = h@.skip(from as int);
    proof {
        lemma_find_skip(h@, needle@, from as int, 0);
        lemma_find_from(h@, needle@, from as int);
    }
    let st = match find_from_exec(h, needle.as_slice(), from) {
        Some(s) => s,
        None => return None,
    };
    let hl = h.len();
    assert(hl == h@.len());
    let start = st + needle.len();
    proof {
        lemma_find_skip(h@, q@, from as int, (start - from) as int);
        lemma_find_from(h@, q@, start as int);
    }
    let end = match find_from_exec(h, q.as_slice(), start) {
        Some(e) => e,
        None => return None,
    };
    let mut v: Vec<char> = Vec::new();
    let mut k = start;
    while k < end
        invariant
            start <= k <= end <= h@.len(),
            v@ == h@.subrange(start as int, k as int),
        decreases end - k,
    {
        v.push(h[k]);
        k = k + 1;
        assert(v@ =~= h@.subrange(start as int, k as int));
    }
    assert(v@ =~= t.subrange(start - from, end - from));
    Some(string_from(v.as_slice()))
}

/// The `<video>` elements from position `cur` on: each `src` (read from the
/// text after `<video`) that is not empty and not on `googlevideo.com`, with
/// the scan going on after the tag's `>`.
pub open spec fn video_tags(html: Seq<char>, cur: int) -> Seq<VideoInfoView>
    decreases html.len() - cur,
{
    if cur < 0 || cur > html.len() {
        Seq::empty()
    } else {
        proof {
            reveal_strlit("<video");
            lemma_find_from(html, "<video"@, cur);
        }
        match find_from(html, "<video"@, cur) {
            None => Seq::empty(),
            Some(pos) => {
                let a = pos + 6;
                proof {
                    reveal_strlit(">");
                    lemma_find_from(html, ">"@, a);
                }
                let here = match dq_attr(html.skip(a), "src"@) {
                    Some(src) => if src.len() > 0 && !contains_seq(src, "googlevideo.com"@) {
                        seq![VideoInfoView { title: "Video"@, src, video_type: classify_spec(src) }]
                    } else {
                        Seq::empty()
                    },
                    None => Seq::empty(),
                };
                match find_from(html, ">"@, a) {
                    Some(end) => here + video_tags(html, end + 1),
                    None => here,
                }
            },
        }
    }
}

/// `vs` without the entries whose `src` an earlier entry has.
pub open spec fn dedup_src(vs: Seq<VideoInfoView>) -> Seq<VideoInfoView>
    decreases vs.len(),
{
    if vs.len() == 0 {
        Seq::empty()
    } else {
        let d = dedup_src(vs.drop_last());
        if exists|k: int| 0 <= k < d.len() && #[trigger] d[k].src == vs.last().src {
            d
        } else {
            d.push(vs.last())
        }
    }
}

/// The videos of a page, each source once, in this order: the YouTube video
/// of a watch URL, an HLS manifest, a DASH manifest, then `<video>` elements.
pub open spec fn page_videos(html: Seq<char>, page_url: Seq<char>) -> Seq<VideoInfoView> {
    let yt = if contains_seq(page_url, "youtube.com/watch"@) || contains_seq(page_url, "youtu.be/"@) {
        match youtube_id(page_url) {
            Some(id) => seq![
                VideoInfoView {
                    title: "YouTube Video"@,
                    src: "https://www.youtube.com/watch?v="@ + id,
                    video_type: VideoType::YouTube,
                },
            ],
            None => Seq::empty(),
        }
    } else {
        Seq::empty()
    };
    let hls = if contains_seq(html, ".m3u8"@) {
        match manifest_url(html, ".m3u8"@) {
            Some(u) => seq![VideoInfoView { title: "Video Stream (HLS)"@, src: u, video_type: VideoType::Hls }],
            None => Seq::empty(),
        }
    } else {
        Seq::empty()
    };
    let dash = if contains_seq(html, ".mpd"@) {
        match manifest_url(html, ".mpd"@) {
            Some(u) => seq![VideoInfoView { title: "Video Stream (DASH)"@, src: u, video_type: VideoType::Dash }],
            None => Seq::empty(),
        }
    } else {
        Seq::empty()
    };
    dedup_src(yt + hls + dash + video_tags(html, 0))
}

/// Removing repeated sources never drops the first entry: it stays first.
pub proof fn lemma_dedup_keeps_first(vs: Seq<VideoInfoView>)
    requires
        vs.len() > 0,
    ensures
        dedup_src(vs).len() > 0,
        dedup_src(vs)[0] == vs[0],
    decreases vs.len(),
{
    let d = dedup_src(vs.drop_last());
    if vs.len() == 1 {
        assert(d.len() == 0);
    } else {
        lemma_dedup_keeps_first(vs.drop_last());
    }
}

/// On a YouTube watch page or a `youtu.be/` short link whose video id can be read,
/// the first video reported is that YouTube video, at its canonical watch URL,
/// whatever the page's markup holds.
pub proof fn lemma_youtube_page_first(html: Seq<char>, page_url: Seq<char>, id: Seq<char>)
    requires
        contains_seq(page_url, "youtube.com/watch"@) || contains_seq(page_url, "youtu.be/"@),
        youtube_id(page_url) == Some(id),
    ensures
        page_videos(html, page_url).len() > 0,
        page_videos(html, page_url)[0] == (VideoInfoView {
            title: "YouTube Video"@,
            src: "https://www.youtube.com/watch?v="@ + id,
            video_type: VideoType::YouTube,
        }),
{
    let yt = seq![
        VideoInfoView {
            title: "YouTube Video"@,
            src: "https://www.youtube.com/watch?v="@ + id,
            video_type: VideoType::YouTube,
        },
    ];
    let hls = if contains_seq(html, ".m3u8"@) {
        match manifest_url(html, ".m3u8"@) {
            Some(u) => seq![VideoInfoView { title: "Video Stream (HLS)"@, src: u, video_type: VideoType::Hls }],
            None => Seq::empty(),
        }
    } else {
        Seq::empty()
    };
    let dash = if contains_seq(html, ".mpd"@) {
        match manifest_url(html, ".mpd"@) {
            Some(u) => seq![VideoInfoView { title: "Video Stream (DASH)"@, src: u, video_type: VideoType::Dash }],
            None => Seq::empty(),
        }
    } else {
        Seq::empty()
    };
    let all = yt + hls + dash + video_tags(html, 0);
    assert(page_videos(html, page_url) == dedup_src(all));
    assert(all[0] == yt[0]);
    lemma_dedup_keeps_first(all);
}

/// Off YouTube, a page that names an HLS manifest reports that stream first.
pub proof fn lemma_hls_first_off_youtube(html: Seq<char>, page_url: Seq<char>, u: Seq<char>)
    requires
        !contains_seq(page_url, "youtube.com/watch"@),
        !contains_seq(page_url, "youtu.be/"@),
        contains_seq(html, ".m3u8"@),
        manifest_url(html, ".m3u8"@) == Some(u),
    ensures
        page_videos(html, page_url).len() > 0,
        page_videos(html, page_url)[0] == (VideoInfoView {
            title: "Video Stream (HLS)"@,
            src: u,
            video_type: VideoType::Hls,
        }),
{
    let hls = seq![VideoInfoView { title: "Video Stream (HLS)"@, src: u, video_type: VideoType::Hls }];
    let dash = if contains_seq(html, ".mpd"@) {
        match manifest_url(html, ".mpd"@) {
            Some(v) => seq![VideoInfoView { title: "Video Stream (DASH)"@, src: v, video_type: VideoType::Dash }],
            None => Seq::empty(),
        }
    } else {
        Seq::empty()
    };
    let all = Seq::<VideoInfoView>::empty() + hls + dash + video_tags(html, 0);
    assert(page_videos(html, page_url) == dedup_src(all));
    assert(all[0] == hls[0]);
    lemma_dedup_keeps_first(all);
}

fn push_info(out: &mut Vec<VideoInfo>, title: &str, src: String, t: VideoType)
    ensures
        infos_view(final(out)@) == infos_view(old(out)@).push(VideoInfoView { title: title@, src: src@, video_type: t }),
{
    out.push(VideoInfo { title: title.to_owned(), src, video_type: t });
    assert(infos_view(out@) =~= infos_view(old(out)@).push(VideoInfoView { title: title@, src: out@.last().src@, video_type: t }));
}

fn video_tags_exec(html: &[char], out: &mut Vec<VideoInfo>)
    ensures
        infos_view(final(out)@) == infos_view(old(out)@) + video_tags(html@, 0),
{
    proof {
        reveal_strlit("<video");
        reveal_strlit(">");
    }
    let open = chars_of("<video");
    let gt = chars_of(">");
    let ghost o0 = infos_view(out@);
    let mut cur: usize = 0;
    assert(infos_view(out@) =~= o0 + Seq::<VideoInfoView>::empty());
    while cur <= html.len()
        invariant
            cur <= html@.len(),
            o0 == infos_view(old(out)@),
            open@ == "<video"@,
            gt@ == ">"@,
            o0 + video_tags(html@, 0) == infos_view(out@) + video_tags(html@, cur as int),
        decreases html@.len() + 1 - cur,
    {
        proof {
            lemma_find_from(html@, open@, cur as int);
            reveal_strlit("<video");
        }
        let hl = html.len();
        assert(hl == html@.len());
        let pos = match find_from_exec(html, open.as_slice(), cur) {
            Some(p) => p,
            None => {
                assert(video_tags(html@, cur as int) == Seq::<VideoInfoView>::empty());
                assert(infos_view(out@) + Seq::<VideoInfoView>::empty() =~= infos_view(out@));
                return;
            },
        };
        let a = pos + 6;
        let ghost before = infos_view(out@);
        match dq_attr_from(html, a, "src") {
            Some(src) => {
                if !src.as_str().is_empty() && !str_contains(src.as_str(), "googlevideo.com") {
                    let t = classify(src.as_str());
                    push_info(out, "Video", src, t);
                }
            },
            None => {},
        }
        let ghost here = infos_view(out@).skip(before.len() as int);
        assert(infos_view(out@) =~= before + here);
        proof {
            lemma_find_from(html@, gt@, a as int);
            reveal_strlit(">");
        }
        match find_from_exec(html, gt.as_slice(), a) {
            Some(end) => {
                assert(before + (here + video_tags(html@, end + 1)) =~= infos_view(out@) + video_tags(html@, end + 1));
                cur = end + 1;
            },
            None => {
                assert(infos_view(out@) + Seq::<VideoInfoView>::empty() =~= infos_view(out@));
                return;
            },
        }
    }
}

fn dedup_by_src(vs: Vec<VideoInfo>) -> (r: Vec<VideoInfo>)
    ensures
        infos_view(r@) == dedup_src(infos_view(vs@)),
{
    let ghost iv = infos_view(vs@);
    let mut out: Vec<VideoInfo> = Vec::new();
    let mut i: usize = 0;
    assert(iv.take(0) =~= Seq::<VideoInfoView>::empty());
    while i < vs.len()
        invariant
            i <= vs@.len(),
            iv == infos_view(vs@),
            infos_view(out@) == dedup_src(iv.take(i as int)),
        decreases vs@.len() - i,
    {
        let ghost d = infos_view(out@);
        let ghost t = iv.take(i + 1);
        assert(t.drop_last() =~= iv.take(i as int));
        assert(t.last() == vs@[i as int]@);
        let mut seen = false;
        let mut k: usize = 0;
        while k < out.len()
            invariant
                k <= out@.len(),
                i < vs@.len(),
                d == infos_view(out@),
                seen == exists|j: int| 0 <= j < k && #[trigger] d[j].src == vs@[i as int].src@,
            decreases out@.len() - k,
        {
            assert(d[k as int].src == out@[k as int].src@);
            let same = str_eq(out[k].src.as_str(), vs[i].src.as_str());
            if same {
                seen = true;
            }
            k = k + 1;
            assert(seen == exists|j: int| 0 <= j < k && #[trigger] d[j].src == vs@[i as int].src@) by {
                if same {
                    assert(d[k - 1].src == vs@[i as int].src@);
                }
            }
        }
        if !seen {
            out.push(vs[i].clone());
            assert(infos_view(out@) =~= d.push(vs@[i as int]@));
        }
        i = i + 1;
    }
    assert(iv.take(vs@.len() as int) =~= iv);
    out
}

/// The videos of a page; see `page_videos`.
pub fn detect_videos(html: &str, page_url: &str) -> (r: Vec<VideoInfo>)
    ensures
        infos_view(r@) == page_videos(html@, page_url@),
{
    let h = chars_of(html);
    let mut videos: Vec<VideoInfo> = Vec::new();
    assert(infos_view(videos@) =~= Seq::<VideoInfoView>::empty());
    if str_contains(page_url, "youtube.com/watch") || str_contains(page_url, "youtu.be/") {
        match extract_youtube_id(page_url) {
            Some(id) => {
                let mut src = "https://www.youtube.com/watch?v=".to_owned();
                src.append(id.as_str());
                push_info(&mut videos, "YouTube Video", src, VideoType::YouTube);
            },
            None => {},
        }
    }
    let ghost v1 = infos_view(videos@);
    let ghost yt = if contains_seq(page_url@, "youtube.com/watch"@) || contains_seq(page_url@, "youtu.be/"@) {
        match youtube_id(page_url@) {
            Some(id) => seq![
                VideoInfoView {
                    title: "YouTube Video"@,
                    src: "https://www.youtube.com/watch?v="@ + id,
                    video_type: VideoType::YouTube,
                },
            ],
            None => Seq::empty(),
        }
    } else {
        Seq::empty()
    };
    assert(v1 =~= yt);
    if str_contains(html, ".m3u8") {
        match extract_manifest_url(h.as_slice(), ".m3u8") {
            Some(u) => push_info(&mut videos, "Video Stream (HLS)", u, VideoType::Hls),
            None => {},
        }
    }
    let ghost v2 = infos_view(videos@);
    let ghost hls = if contains_seq(html@, ".m3u8"@) {
        match manifest_url(html@, ".m3u8"@) {
            Some(u) => seq![VideoInfoView { title: "Video Stream (HLS)"@, src: u, video_type: VideoType::Hls }],
            None => Seq::empty(),
        }
    } else {
        Seq::empty()
    };
    assert(v2 =~= yt + hls);
    if str_contains(html, ".mpd") {
        match extract_manifest_url(h.as_slice(), ".mpd") {
            Some(u) => push_info(&mut videos, "Video Stream (DASH)", u, VideoType::Dash),
            None => {},
        }
    }
    let ghost v3 = infos_view(videos@);
    let ghost dash = if contains_seq(html@, ".mpd"@) {
        match manifest_url(html@, ".mpd"@) {
            Some(u) => seq![VideoInfoView { title: "Video Stream (DASH)"@, src: u, video_type: VideoType::Dash }],
            None => Seq::empty(),
        }
    } else {
        Seq::empty()
    };
    assert(v3 =~= yt + hls + dash);
    video_tags_exec(h.as_slice(), &mut videos);
    assert(infos_view(videos@) =~= yt + hls + dash + video_tags(html@, 0));
    dedup_by_src(videos)
}

} // verus!
