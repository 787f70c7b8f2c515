//! What the terminal frame shows, decided apart from drawing it: the style
//! of each span, the labels of videos and forms, the title bar and the
//! search box.
use vstd::prelude::*;
use crate::browser::video::{infos_view, VideoInfo, VideoInfoView, VideoType};
use crate::dom::forms::{fields_view, forms_view, FieldView, Form, FormField, FormView};
use crate::dom::walker::{line_view, lines_view, RichSpan, SpanView};
use crate::text::{str_eq, to_upper, unicode_upper};
use crate::tui::app::PageContent;

verus! {

/// How a span of page text is drawn.
#[derive(Debug, Clone, Copy, PartialEq, Eq, Structural)]
pub enum SpanStyle {
    /// The selected link, in reverse video.
    Selected,
    /// Another link, underlined.
    Link,
    /// Heading text.
    Heading,
    /// Plain text.
    Plain,
}

/// The style of a span with link index `link_idx` when `selected` is the
/// selected link.
pub fn span_style(link_idx: Option<usize>, heading: bool, selected: Option<usize>) -> (r: SpanStyle)
    ensures
        r == (match link_idx {
            Some(i) => if selected == Some(i) {
                SpanStyle::Selected
            } else {
                SpanStyle::Link
            },
            None => if heading {
                SpanStyle::Heading
            } else {
                SpanStyle::Plain
            },
        }),
{
    match link_idx {
        Some(i) => match selected {
            Some(s) => if s == i {
                SpanStyle::Selected
            } else {
                SpanStyle::Link
            },
            None => SpanStyle::Link,
        },
        None => if heading {
            SpanStyle::Heading
        } else {
            SpanStyle::Plain
        },
    }
}

/// The six-column tag in front of a video's title.
pub fn video_tag(t: VideoType) -> (r: &'static str)
    ensures
        r@ == (match t {
            VideoType::YouTube => "[YT]  "@,
            VideoType::Hls => "[HLS] "@,
            VideoType::Dash => "[DASH]"@,
            _ => "[vid] "@,
        }),
{
    match t {
        VideoType::YouTube => "[YT]  ",
        VideoType::Hls => "[HLS] ",
        VideoType::Dash => "[DASH]",
        _ => "[vid] ",
    }
}

/// The heading line of a form: its action, or `form` without one.
pub fn form_label(action: &str) -> (r: String)
    ensures
        r@ == "  [Form: "@ + (if action@.len() == 0 {
            "form"@
        } else {
            action@
        }) + "]"@,
{
    let mut s = "  [Form: ".to_owned();
    if action.is_empty() {
        s.append("form");
    } else {
        s.append(action);
    }
    s.append("]");
    s
}

pub const MASK: &'static str = "••••••••";

pub const BLANK_FIELD: &'static str = "________________";

/// What a field shows: a mask for a password, else its value, else its
/// placeholder, else a blank line.
pub open spec fn field_shown(f: FormField) -> Seq<char> {
    if f.field_type@ == "password"@ {
        MASK@
    } else if f.value@.len() > 0 {
        f.value@
    } else if f.placeholder@.len() > 0 {
        f.placeholder@
    } else {
        BLANK_FIELD@
    }
}

/// The label and the boxed value of a form field; none for a hidden field.
pub fn field_line(f: &FormField) -> (r: Option<(String, String)>)
    ensures
        f.field_type@ == "hidden"@ ==> r is None,
        f.field_type@ != "hidden"@ ==> (r matches Some((label, shown)) && label@ == f.name@ + ": "@ && shown@ == "["@
            + field_shown(*f) + "]"@),
{
    if str_eq(f.field_type.as_str(), "hidden") {
        return None;
    }
    let mut label = f.name.clone();
    label.append(": ");
    let mut shown = "[".to_owned();
    if str_eq(f.field_type.as_str(), "password") {
        shown.append(MASK);
    } else if !f.value.as_str().is_empty() {
        shown.append(f.value.as_str());
    } else if !f.placeholder.as_str().is_empty() {
        shown.append(f.placeholder.as_str());
    } else {
        shown.append(BLANK_FIELD);
    }
    shown.append("]");
    Some((label, shown))
}

/// The title bar's text: the page title in upper case, or the browser's
/// name on the new tab.
pub fn title_text(title: Option<&str>) -> (r: String)
    ensures
        r@ == (match title {
            Some(t) => unicode_upper(t@),
            None => "A-Z BROWSER"@,
        }),
{
    match title {
        Some(t) => to_upper(t),
        None => "A-Z BROWSER".to_owned(),
    }
}

/// The page of the view that the scroll offset is on, counting from one, for
/// a view `height` rows tall (at least one).
pub fn page_number(scroll_offset: u16, height: u16) -> (r: u32)
    ensures
        r == scroll_offset / (if height == 0 {
            1
        } else {
            height
        }) + 1,
{
    let h: u16 = if height == 0 {
        1
    } else {
        height
    };
    (scroll_offset / h) as u32 + 1
}

/// The underscores after the search text in a box 44 columns wide.
pub fn search_blanks(input_len: usize) -> (r: String)
    ensures
        r@.len() == (if input_len < 44 {
            44 - input_len
        } else {
            0
        }),
        forall|i: int| 0 <= i < r@.len() ==> r@[i] == '_',
{
    let n: usize = if input_len < 44 {
        44 - input_len
    } else {
        0
    };
    let mut s = String::new();
    let mut i: usize = 0;
    while i < n
        invariant
            i <= n,
            s@.len() == i,
            forall|j: int| 0 <= j < i ==> s@[j] == '_',
        decreases n - i,
    {
        crate::text::push_char(&mut s, '_');
        i = i + 1;
    }
    s
}

/// How a piece of a page line is drawn.
#[derive(Debug, Clone, Copy, PartialEq, Eq, Structural)]
pub enum TextRole {
    /// The selected link, in reverse video.
    Selected,
    /// Another link, underlined.
    Link,
    /// Heading text.
    Heading,
    /// Page text.
    Plain,
    /// Section rules, field labels and notes, dimmed.
    Dim,
    /// Video tags and form headings.
    Tag,
    /// The play hint under a video.
    Action,
    /// What a form field shows.
    Value,
    /// Indentation, with no style of its own.
    Bare,
}

pub open spec fn role_of(s: SpanStyle) -> TextRole {
    match s {
        SpanStyle::Selected => TextRole::Selected,
        SpanStyle::Link => TextRole::Link,
        SpanStyle::Heading => TextRole::Heading,
        SpanStyle::Plain => TextRole::Plain,
    }
}

pub open spec fn style_spec(link_idx: Option<usize>, heading: bool, selected: Option<usize>) -> SpanStyle {
    match link_idx {
        Some(i) => if selected == Some(i) {
            SpanStyle::Selected
        } else {
            SpanStyle::Link
        },
        None => if heading {
            SpanStyle::Heading
        } else {
            SpanStyle::Plain
        },
    }
}

pub const VIDEOS_RULE: &'static str = "── Videos ───────────────────────────────────────────────";

pub const FORMS_RULE: &'static str = "── Forms ────────────────────────────────────────────────";

pub const PLAY_HINT: &'static str = "[P] Play in external player";

pub const VIDEO_INDENT: &'static str = "       ";

pub const FIELD_INDENT: &'static str = "    ";

pub const NO_CONTENT: &'static str = "  (page has no readable content)";

pub type TextLine = Vec<(String, TextRole)>;

pub open spec fn text_line_view(l: Seq<(String, TextRole)>) -> Seq<(Seq<char>, TextRole)> {
    l.map_values(|p: (String, TextRole)| (p.0@, p.1))
}

pub open spec fn text_lines_view(v: Seq<TextLine>) -> Seq<Seq<(Seq<char>, TextRole)>> {
    v.map_values(|l: TextLine| text_line_view(l@))
}

/// One rendered line of the page, each span styled for the selection.
pub open spec fn styled_line(l: Seq<SpanView>, sel: Option<usize>) -> Seq<(Seq<char>, TextRole)> {
    l.map_values(|s: SpanView| (s.text, role_of(style_spec(s.link_idx, s.heading, sel))))
}

/// The lines of one video: tag and title, the play hint, a blank line.
pub open spec fn video_lines(v: VideoInfoView) -> Seq<Seq<(Seq<char>, TextRole)>> {
    seq![
        seq![
            (
                match v.video_type {
                    VideoType::YouTube => "[YT]  "@,
                    VideoType::Hls => "[HLS] "@,
                    VideoType::Dash => "[DASH]"@,
                    _ => "[vid] "@,
                },
                TextRole::Tag,
            ),
            (v.title, TextRole::Plain),
        ],
        seq![(VIDEO_INDENT@, TextRole::Bare), (PLAY_HINT@, TextRole::Action)],
        Seq::empty(),
    ]
}

pub open spec fn videos_block(vs: Seq<VideoInfoView>) -> Seq<Seq<(Seq<char>, TextRole)>>
    decreases vs.len(),
{
    if vs.len() == 0 {
        Seq::empty()
    } else {
        videos_block(vs.drop_last()) + video_lines(vs.last())
    }
}

/// What a field shows: a mask for a password, else its value, else its
/// placeholder, else a blank line.
pub open spec fn shown_view(f: FieldView) -> Seq<char> {
    if f.field_type == "password"@ {
        MASK@
    } else if f.value.len() > 0 {
        f.value
    } else if f.placeholder.len() > 0 {
        f.placeholder
    } else {
        BLANK_FIELD@
    }
}

/// The line of a field, none for a hidden one.
pub open spec fn field_lines(f: FieldView) -> Seq<Seq<(Seq<char>, TextRole)>> {
    if f.field_type == "hidden"@ {
        Seq::empty()
    } else {
        seq![
            seq![
                (FIELD_INDENT@, TextRole::Bare),
                (f.name + ": "@, TextRole::Dim),
                ("["@ + shown_view(f) + "]"@, TextRole::Value),
            ],
        ]
    }
}

pub open spec fn fields_block(fs: Seq<FieldView>) -> Seq<Seq<(Seq<char>, TextRole)>>
    decreases fs.len(),
{
    if fs.len() == 0 {
        Seq::empty()
    } else {
        fields_block(fs.drop_last()) + field_lines(fs.last())
    }
}

/// The lines of a form: its heading, its fields' lines, a blank line.
pub open spec fn form_lines(f: FormView) -> Seq<Seq<(Seq<char>, TextRole)>> {
    seq![seq![("  [Form: "@ + (if f.action.len() == 0 { "form"@ } else { f.action }) + "]"@, TextRole::Tag)]]
        + fields_block(f.fields) + seq![Seq::empty()]
}

pub open spec fn forms_block(fs: Seq<FormView>) -> Seq<Seq<(Seq<char>, TextRole)>>
    decreases fs.len(),
{
    if fs.len() == 0 {
        Seq::empty()
    } else {
        forms_block(fs.drop_last()) + form_lines(fs.last())
    }
}

/// The lines of a page: its rendered lines styled for the selection; then,
/// when it has any, a section of its videos and one of its forms, each
/// after a blank line, a rule and a blank line; a note when all of that is
/// empty.
pub open spec fn page_lines_spec(
    lines: Seq<Seq<SpanView>>,
    videos: Seq<VideoInfoView>,
    forms: Seq<FormView>,
    sel: Option<usize>,
) -> Seq<Seq<(Seq<char>, TextRole)>> {
    let body = lines.map_values(|l: Seq<SpanView>| styled_line(l, sel));
    let v = if videos.len() > 0 {
        seq![Seq::empty(), seq![(VIDEOS_RULE@, TextRole::Dim)], Seq::empty()] + videos_block(videos)
    } else {
        Seq::empty()
    };
    let f = if forms.len() > 0 {
        seq![Seq::empty(), seq![(FORMS_RULE@, TextRole::Dim)], Seq::empty()] + forms_block(forms)
    } else {
        Seq::empty()
    };
    let all = body + v + f;
    if all.len() == 0 {
        seq![seq![(NO_CONTENT@, TextRole::Dim)]]
    } else {
        all
    }
}

fn push_line(out: &mut Vec<TextLine>, l: TextLine)
    ensures
        text_lines_view(final(out)@) == text_lines_view(old(out)@).push(text_line_view(l@)),
{
    let ghost before = out@;
    out.push(l);
    assert(text_lines_view(out@) =~= text_lines_view(before).push(text_line_view(l@)));
}

fn empty_line() -> (r: TextLine)
    ensures
        text_line_view(r@) == Seq::<(Seq<char>, TextRole)>::empty(),
{
    let v: TextLine = Vec::new();
    assert(text_line_view(v@) =~= Seq::<(Seq<char>, TextRole)>::empty());
    v
}

fn pair(s: &str, role: TextRole) -> (r: (String, TextRole))
    ensures
        r.0@ == s@,
        r.1 == role,
{
    (s.to_owned(), role)
}

fn line1(a: (String, TextRole)) -> (r: TextLine)
    ensures
        text_line_view(r@) == seq![(a.0@, a.1)],
{
    let mut v: TextLine = Vec::new();
    v.push(a);
    assert(text_line_view(v@) =~= seq![(a.0@, a.1)]);
    v
}

fn styled_line_exec(l: &Vec<RichSpan>, sel: Option<usize>) -> (r: TextLine)
    ensures
        text_line_view(r@) == styled_line(line_view(l@), sel),
{
    let mut out: TextLine = Vec::new();
    let mut i: usize = 0;
    while i < l.len()
        invariant
            i <= l@.len(),
            text_line_view(out@) == styled_line(line_view(l@.take(i as int)), sel),
        decreases l@.len() - i,
    {
        let s = &l[i];
        let st = span_style(s.link_idx, s.heading, sel);
        let role = match st {
            SpanStyle::Selected => TextRole::Selected,
            SpanStyle::Link => TextRole::Link,
            SpanStyle::Heading => TextRole::Heading,
            SpanStyle::Plain => TextRole::Plain,
        };
        assert(role == role_of(style_spec(s.link_idx, s.heading, sel)));
        let ghost before = out@;
        let txt = s.text.clone();
        out.push((txt, role));
        assert(text_line_view(out@) =~= text_line_view(before).push((s.text@, role)));
        i = i + 1;
        assert(line_view(l@.take(i as int)) =~= line_view(l@.take(i - 1)).push(l@[i - 1]@));
        assert(styled_line(line_view(l@.take(i as int)), sel) =~= styled_line(line_view(l@.take(i - 1)), sel).push(
            (s.text@, role),
        ));
    }
    assert(l@.take(i as int) =~= l@);
    out
}

/// The lines to draw for a page with `selected_link` selected; see
/// `page_lines_spec`.
pub fn page_lines(page: &PageContent, selected_link: Option<usize>) -> (r: Vec<TextLine>)
    ensures
        text_lines_view(r@) == page_lines_spec(
            lines_view(page.rendered_lines@),
            infos_view(page.videos@),
            forms_view(page.forms@),
            selected_link,
        ),
{
    let ghost lv = lines_view(page.rendered_lines@);
    let ghost body = lv.map_values(|l: Seq<SpanView>| styled_line(l, selected_link));
    let mut out: Vec<TextLine> = Vec::new();
    let mut i: usize = 0;
    while i < page.rendered_lines.len()
        invariant
            i <= page.rendered_lines@.len(),
            lv == lines_view(page.rendered_lines@),
            body == lv.map_values(|l: Seq<SpanView>| styled_line(l, selected_link)),
            text_lines_view(out@) == body.take(i as int),
        decreases page.rendered_lines@.len() - i,
    {
        let l = styled_line_exec(&page.rendered_lines[i], selected_link);
        push_line(&mut out, l);
        i = i + 1;
        assert(text_lines_view(out@) =~= body.take(i as int));
    }
    assert(body.take(i as int) =~= body);
    let ghost vv = infos_view(page.videos@);
    let ghost v_part = if vv.len() > 0 {
        seq![Seq::empty(), seq![(VIDEOS_RULE@, TextRole::Dim)], Seq::empty()] + videos_block(vv)
    } else {
        Seq::empty()
    };
    if page.videos.len() > 0 {
        push_line(&mut out, empty_line());
        push_line(&mut out, line1(pair(VIDEOS_RULE, TextRole::Dim)));
        push_line(&mut out, empty_line());
        let ghost head = text_lines_view(out@);
        assert(head =~= body + seq![Seq::empty(), seq![(VIDEOS_RULE@, TextRole::Dim)], Seq::empty()]);
        let mut j: usize = 0;
        while j < page.videos.len()
            invariant
                j <= page.videos@.len(),
                vv == infos_view(page.videos@),
                text_lines_view(out@) == head + videos_block(vv.take(j as int)),
            decreases page.videos@.len() - j,
        {
            let v = &page.videos[j];
            let mut l1: TextLine = Vec::new();
            l1.push(pair(video_tag(v.video_type), TextRole::Tag));
            l1.push((v.title.clone(), TextRole::Plain));
            let mut l2: TextLine = Vec::new();
            l2.push(pair(VIDEO_INDENT, TextRole::Bare));
            l2.push(pair(PLAY_HINT, TextRole::Action));
            let ghost before = text_lines_view(out@);
            let ghost vj = vv[j as int];
            assert(vj == v@);
            assert(text_line_view(l1@) =~= video_lines(vj)[0]);
            assert(text_line_view(l2@) =~= video_lines(vj)[1]);
            push_line(&mut out, l1);
            push_line(&mut out, l2);
            push_line(&mut out, empty_line());
            assert(text_lines_view(out@) =~= before + video_lines(vj));
            j = j + 1;
            assert(vv.take(j as int).drop_last() =~= vv.take(j - 1));
            assert(vv.take(j as int).last() == page.videos@[j - 1]@);
            assert(text_lines_view(out@) =~= head + videos_block(vv.take(j as int)));
        }
        assert(vv.take(j as int) =~= vv);
    }
    assert(text_lines_view(out@) =~= body + v_part);
    let ghost fv = forms_view(page.forms@);
    let ghost f_part = if fv.len() > 0 {
        seq![Seq::empty(), seq![(FORMS_RULE@, TextRole::Dim)], Seq::empty()] + forms_block(fv)
    } else {
        Seq::empty()
    };
    if page.forms.len() > 0 {
        push_line(&mut out, empty_line());
        push_line(&mut out, line1(pair(FORMS_RULE, TextRole::Dim)));
        push_line(&mut out, empty_line());
        let ghost head = text_lines_view(out@);
        assert(head =~= body + v_part + seq![Seq::empty(), seq![(FORMS_RULE@, TextRole::Dim)], Seq::empty()]);
        let mut j: usize = 0;
        while j < page.forms.len()
            invariant
                j <= page.forms@.len(),
                fv == forms_view(page.forms@),
                text_lines_view(out@) == head + forms_block(fv.take(j as int)),
            decreases page.forms@.len() - j,
        {
            let form = &page.forms[j];
            let ghost before = text_lines_view(out@);
            push_line(&mut out, line1((form_label(form.action.as_str()), TextRole::Tag)));
            let ghost fsv = fields_view(form.fields@);
            let ghost mid = text_lines_view(out@);
            let mut k: usize = 0;
            while k < form.fields.len()
                invariant
                    k <= form.fields@.len(),
                    fsv == fields_view(form.fields@),
                    text_lines_view(out@) == mid + fields_block(fsv.take(k as int)),
                decreases form.fields@.len() - k,
            {
                let fl = &form.fields[k];
                let ghost fvk = fsv[k as int];
                assert(fvk == fl@);
                let ghost before = text_lines_view(out@);
                match field_line(fl) {
                    Some((label, shown)) => {
                        let mut l: TextLine = Vec::new();
                        l.push(pair(FIELD_INDENT, TextRole::Bare));
                        l.push((label, TextRole::Dim));
                        l.push((shown, TextRole::Value));
                        assert(field_shown(*fl) == shown_view(fvk));
                        assert(text_line_view(l@) =~= field_lines(fvk)[0]);
                        push_line(&mut out, l);
                        assert(text_lines_view(out@) =~= before + field_lines(fvk));
                    },
                    None => {
                        assert(field_lines(fvk) =~= Seq::<Seq<(Seq<char>, TextRole)>>::empty());
                        assert(text_lines_view(out@) =~= before + field_lines(fvk));
                    },
                }
                k = k + 1;
                assert(fsv.take(k as int).drop_last() =~= fsv.take(k - 1));
                assert(fsv.take(k as int).last() == fvk);
                assert(text_lines_view(out@) =~= mid + fields_block(fsv.take(k as int)));
            }
            assert(fsv.take(k as int) =~= fsv);
            push_line(&mut out, empty_line());
            j = j + 1;
            assert(fv.take(j as int).drop_last() =~= fv.take(j - 1));
            assert(fv.take(j as int).last() == page.forms@[j - 1]@);
            assert(text_lines_view(out@) =~= head + forms_block(fv.take(j as int)));
        }
        assert(fv.take(j as int) =~= fv);
    }
    assert(text_lines_view(out@) =~= body + v_part + f_part);
    if out.len() == 0 {
        push_line(&mut out, line1(pair(NO_CONTENT, TextRole::Dim)));
        assert(text_lines_view(out@) =~= seq![seq![(NO_CONTENT@, TextRole::Dim)]]);
    }
    out
}

} // verus!
