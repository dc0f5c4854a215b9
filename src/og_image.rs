//! Open Graph preview images, drawn as SVG.
use vstd::prelude::*;
use vstd::string::StringExecFns;

use crate::checker::decimal_string;
use crate::text::{chars_of, is_white_char, owned, push_char, string_of};

verus! {

/// Size and colours of a preview image.
#[derive(Debug, Clone)]
pub struct OgImageConfig {
    pub width: u32,
    pub height: u32,
    /// Background colour (hex).
    pub background_color: String,
    /// Text colour (hex).
    pub text_color: String,
    pub title_font_size: u32,
    pub description_font_size: u32,
}

impl OgImageConfig {
    /// 1200 by 630 pixels, light text on a dark background.
    pub fn new() -> (r: OgImageConfig)
        ensures
            r.width == 1200 && r.height == 630,
            r.title_font_size == 56 && r.description_font_size == 28,
    {
        OgImageConfig {
            width: 1200,
            height: 630,
            background_color: owned("#1a1a2e"),
            text_color: owned("#ffffff"),
            title_font_size: 56,
            description_font_size: 28,
        }
    }
}

/// What a preview image shows.
#[derive(Debug, Clone)]
pub struct OgImageData {
    pub title: String,
    pub description: Option<String>,
    pub site_name: Option<String>,
    pub author: Option<String>,
    pub date: Option<String>,
    pub tags: Vec<String>,
}

/// Arrangement of a template.
#[derive(Debug, Clone, Copy, PartialEq, Eq, Structural, Default)]
pub enum TemplateLayout {
    /// Title and description.
    #[default]
    Standard,
    /// Everything centred.
    Centered,
    /// Text on one side, image on the other.
    Split,
}

/// A named layout.
#[derive(Debug, Clone)]
pub struct OgImageTemplate {
    pub name: String,
    pub layout: TemplateLayout,
}

impl OgImageTemplate {
    /// The standard layout.
    pub fn new(name: &str) -> (r: OgImageTemplate)
        ensures
            r.name@ == name@,
            r.layout == TemplateLayout::Standard,
    {
        OgImageTemplate { name: owned(name), layout: TemplateLayout::Standard }
    }

    /// The centred layout.
    pub fn centered(name: &str) -> (r: OgImageTemplate)
        ensures
            r.name@ == name@,
            r.layout == TemplateLayout::Centered,
    {
        OgImageTemplate { name: owned(name), layout: TemplateLayout::Centered }
    }

    /// The split layout.
    pub fn split(name: &str) -> (r: OgImageTemplate)
        ensures
            r.name@ == name@,
            r.layout == TemplateLayout::Split,
    {
        OgImageTemplate { name: owned(name), layout: TemplateLayout::Split }
    }
}

/// Failures of image generation.
#[derive(Debug)]
pub enum OgImageError {
    /// A font could not be loaded.
    FontLoad(String),
    /// The image could not be encoded.
    Encode(String),
    /// The configuration is not usable.
    InvalidConfig(String),
}

/// XML escaping: `&`, `<`, `>`, `"` and `'` become entities.
pub open spec fn escape_xml(s: Seq<char>) -> Seq<char>
    decreases s.len(),
{
    if s.len() == 0 {
        Seq::empty()
    } else {
        escape_xml(s.drop_last()) + escape_xml_char(s.last())
    }
}

/// The XML escape of one character.
pub open spec fn escape_xml_char(c: char) -> Seq<char> {
    if c == '&' {
        seq!['&', 'a', 'm', 'p', ';']
    } else if c == '<' {
        seq!['&', 'l', 't', ';']
    } else if c == '>' {
        seq!['&', 'g', 't', ';']
    } else if c == '"' {
        seq!['&', 'q', 'u', 'o', 't', ';']
    } else if c == '\'' {
        seq!['&', '#', '3', '9', ';']
    } else {
        seq![c]
    }
}

fn push_chars(s: &mut String, cs: &Vec<char>)
    ensures
        final(s)@ == old(s)@ + cs@,
{
    let mut i: usize = 0;
    while i < cs.len()
        invariant
            i <= cs@.len(),
            s@ == old(s)@ + cs@.subrange(0, i as int),
        decreases cs@.len() - i,
    {
        push_char(s, cs[i]);
        i = i + 1;
        proof {
            assert(s@ =~= old(s)@ + cs@.subrange(0, i as int));
        }
    }
    proof {
        assert(cs@.subrange(0, cs@.len() as int) =~= cs@);
    }
}

/// `s` with XML special characters escaped.
pub fn escape_xml_text(s: &str) -> (r: String)
    ensures
        r@ == escape_xml(s@),
{
    let cs = chars_of(s);
    let mut out = String::new();
    let mut i: usize = 0;
    while i < cs.len()
        invariant
            i <= cs@.len(),
            cs@ == s@,
            out@ == escape_xml(cs@.subrange(0, i as int)),
        decreases cs@.len() - i,
    {
        let c = cs[i];
        let piece = if c == '&' {
            vec!['&', 'a', 'm', 'p', ';']
        } else if c == '<' {
            vec!['&', 'l', 't', ';']
        } else if c == '>' {
            vec!['&', 'g', 't', ';']
        } else if c == '"' {
            vec!['&', 'q', 'u', 'o', 't', ';']
        } else if c == '\'' {
            vec!['&', '#', '3', '9', ';']
        } else {
            vec![c]
        };
        proof {
            assert(piece@ =~= escape_xml_char(c));
            assert(cs@.subrange(0, i + 1).drop_last() =~= cs@.subrange(0, i as int));
        }
        push_chars(&mut out, &piece);
        i = i + 1;
    }
    proof {
        assert(cs@.subrange(0, cs@.len() as int) =~= cs@);
    }
    out
}

/// `s` cut to `max_len` characters, the last three replaced by `...`.
pub open spec fn truncated(s: Seq<char>, max_len: nat) -> Seq<char> {
    if s.len() <= max_len {
        s
    } else {
        s.subrange(0, max_len - 3) + seq!['.', '.', '.']
    }
}

/// `text`, or its first characters and `...` when it is longer than
/// `max_len` characters.
pub fn truncate_text(text: &str, max_len: usize) -> (r: String)
    requires
        max_len >= 3,
    ensures
        r@ == truncated(text@, max_len as nat),
{
    let cs = chars_of(text);
    if cs.len() <= max_len {
        return owned(text);
    }
    let mut r = string_of(&cs, 0, max_len - 3);
    push_char(&mut r, '.');
    push_char(&mut r, '.');
    push_char(&mut r, '.');
    proof {
        assert(r@ =~= truncated(text@, max_len as nat));
    }
    r
}

/// The site name as it stands in the image: the given one escaped, or
/// `Ox Content`.
pub open spec fn site_label(data: &OgImageData) -> Seq<char> {
    match data.site_name {
        Some(n) => escape_xml(n@),
        None => "Ox Content"@,
    }
}

/// Words of `text` packed greedily into lines of at most `max_chars`
/// characters, at most two lines; when more were needed the second ends
/// in `...`.
pub fn wrap_text(text: &str, max_chars: usize) -> (r: Vec<String>)
    ensures
        r@.len() <= 2,
{
    let cs = chars_of(text);
    let mut lines: Vec<String> = Vec::new();
    let mut current: Vec<char> = Vec::new();
    let mut i: usize = 0;
    while i < cs.len()
        invariant
            i <= cs@.len(),
        decreases cs@.len() - i,
    {
        let ghost i0 = i;
        while i < cs.len() && is_white_char(cs[i])
            invariant
                i0 <= i <= cs@.len(),
            decreases cs@.len() - i,
        {
            i = i + 1;
        }
        let start = i;
        while i < cs.len() && !is_white_char(cs[i])
            invariant
                i0 <= start <= i <= cs@.len(),
                start == i0 ==> i0 == cs@.len() || !crate::text::is_white(cs@[i0 as int]) || i > i0,
            decreases cs@.len() - i,
        {
            i = i + 1;
        }
        assert(i > i0);
        if i > start {
            let word_len = i - start;
            if current.len() == 0 {
                current = crate::text::sub_vec(&cs, start, i);
            } else if word_len <= max_chars && current.len() <= max_chars - word_len && max_chars
                - word_len - current.len() >= 1 {
                current.push(' ');
                let mut k = start;
                while k < i
                    invariant
                        start <= k <= i,
                        i <= cs@.len(),
                    decreases i - k,
                {
                    current.push(cs[k]);
                    k = k + 1;
                }
            } else {
                lines.push(string_of(&current, 0, current.len()));
                current = crate::text::sub_vec(&cs, start, i);
            }
        }
    }
    if current.len() > 0 {
        lines.push(string_of(&current, 0, current.len()));
    }
    if lines.len() > 2 {
        let mut kept: Vec<String> = Vec::new();
        let first = owned(lines[0].as_str());
        kept.push(first);
        let second = chars_of(lines[1].as_str());
        let mut last = if second.len() > 3 {
            string_of(&second, 0, second.len() - 3)
        } else {
            string_of(&second, 0, second.len())
        };
        if second.len() > 3 {
            last.append("...");
        }
        kept.push(last);
        return kept;
    }
    lines
}

/// Makes preview images.
pub struct OgImageGenerator {
    config: OgImageConfig,
    template: OgImageTemplate,
}

impl OgImageGenerator {
    /// The configuration held.
    pub closed spec fn cfg(&self) -> OgImageConfig {
        self.config
    }

    /// The template held.
    pub closed spec fn tmpl(&self) -> OgImageTemplate {
        self.template
    }

    /// A generator with the standard template.
    pub fn new(config: OgImageConfig) -> (r: OgImageGenerator)
        ensures
            r.cfg() == config,
            r.tmpl().layout == TemplateLayout::Standard,
    {
        OgImageGenerator { config, template: OgImageTemplate::new("default") }
    }

    /// A generator with a chosen template.
    pub fn with_template(config: OgImageConfig, template: OgImageTemplate) -> (r: OgImageGenerator)
        ensures
            r.cfg() == config,
            r.tmpl() == template,
    {
        OgImageGenerator { config, template }
    }

    /// The configuration.
    pub fn config(&self) -> (r: &OgImageConfig)
        ensures
            *r == self.cfg(),
    {
        &self.config
    }

    /// The template.
    pub fn template(&self) -> (r: &OgImageTemplate)
        ensures
            *r == self.tmpl(),
    {
        &self.template
    }

    /// A raster image; no encoder is available, so this always fails.
    pub fn generate(&self, data: &OgImageData) -> (r: Result<Vec<u8>, OgImageError>)
        ensures
            (r matches Err(e) && e is Encode),
    {
        Err(OgImageError::Encode(owned("Image generation not yet implemented")))
    }

    /// The image as SVG: the site name, the title cut to 50 characters and
    /// the description cut to 120 characters on up to two lines, all
    /// escaped; the title text stands in it as it is.
    pub fn generate_svg(&self, data: &OgImageData) -> (r: String)
        ensures
            exists|a: Seq<char>, b: Seq<char>, c: Seq<char>|
                r@ == a + site_label(data) + b + escape_xml(truncated(data.title@, 50)) + c,
    {
        let title = escape_xml_text(truncate_text(data.title.as_str(), 50).as_str());
        let description = match &data.description {
            Some(d) => escape_xml_text(truncate_text(d.as_str(), 120).as_str()),
            None => String::new(),
        };
        let site_name = match &data.site_name {
            Some(s) => escape_xml_text(s.as_str()),
            None => owned("Ox Content"),
        };
        let lines = wrap_text(description.as_str(), 60);
        let mut desc_svg = String::new();
        let mut i: usize = 0;
        while i < lines.len()
            invariant
                i <= lines@.len(),
            decreases lines@.len() - i,
        {
            desc_svg.append("<tspan x=\"80\" dy=\"");
            desc_svg.append(if i == 0 {
                "0"
            } else {
                "1.4em"
            });
            desc_svg.append("\">");
            desc_svg.append(lines[i].as_str());
            desc_svg.append("</tspan>");
            i = i + 1;
        }
        let width = decimal_string(self.config.width as usize);
        let height = decimal_string(self.config.height as usize);
        let bg = self.config.background_color.as_str();
        let tc = self.config.text_color.as_str();
        let mut s = owned("<svg xmlns=\"http://www.w3.org/2000/svg\" width=\"");
        s.append(width.as_str());
        s.append("\" height=\"");
        s.append(height.as_str());
        s.append("\" viewBox=\"0 0 ");
        s.append(width.as_str());
        s.append(" ");
        s.append(height.as_str());
        s.append("\">\n  <defs>\n    <linearGradient id=\"bgGrad\" x1=\"0%\" y1=\"0%\" x2=\"100%\" y2=\"100%\">\n      <stop offset=\"0%\" style=\"stop-color:");
        s.append(bg);
        s.append("\"/>\n      <stop offset=\"100%\" style=\"stop-color:#2d2d4a\"/>\n    </linearGradient>\n    <linearGradient id=\"accentGrad\" x1=\"0%\" y1=\"0%\" x2=\"100%\" y2=\"0%\">\n      <stop offset=\"0%\" style=\"stop-color:#b7410e\"/>\n      <stop offset=\"100%\" style=\"stop-color:#e67e4d\"/>\n    </linearGradient>\n  </defs>\n\n  <!-- Background -->\n  <rect width=\"100%\" height=\"100%\" fill=\"url(#bgGrad)\"/>\n\n  <!-- Accent bar -->\n  <rect x=\"0\" y=\"0\" width=\"8\" height=\"100%\" fill=\"url(#accentGrad)\"/>\n\n  <!-- Logo circle -->\n  <circle cx=\"120\" cy=\"120\" r=\"50\" fill=\"url(#accentGrad)\" opacity=\"0.9\"/>\n  <text x=\"120\" y=\"135\" text-anchor=\"middle\" fill=\"");
        s.append(tc);
        s.append("\" font-size=\"40\" font-weight=\"bold\" font-family=\"system-ui, sans-serif\">Ox</text>\n\n  <!-- Site name -->\n  <text x=\"190\" y=\"125\" fill=\"");
        s.append(tc);
        s.append("\" font-size=\"24\" font-family=\"system-ui, sans-serif\" opacity=\"0.7\">");
        let ghost before_site = s@;
        s.append(site_name.as_str());
        let ghost after_site = s@;
        s.append("</text>\n\n  <!-- Title -->\n  <text x=\"80\" y=\"280\" fill=\"");
        s.append(tc);
        s.append("\" font-size=\"56\" font-weight=\"bold\" font-family=\"system-ui, sans-serif\">");
        let mut tail = String::new();
        tail.append("</text>\n\n  <!-- Description -->\n  <text x=\"80\" y=\"380\" fill=\"");
        tail.append(tc);
        tail.append("\" font-size=\"28\" font-family=\"system-ui, sans-serif\" opacity=\"0.8\">");
        tail.append(desc_svg.as_str());
        tail.append("</text>\n\n  <!-- Bottom decoration -->\n  <rect x=\"80\" y=\"540\" width=\"200\" height=\"4\" rx=\"2\" fill=\"url(#accentGrad)\" opacity=\"0.6\"/>\n</svg>");
        let ghost head = s@;
        s.append(title.as_str());
        s.append(tail.as_str());
        proof {
            assert(after_site == before_site + site_label(data));
            let b = head.subrange(after_site.len() as int, head.len() as int);
            assert(head =~= before_site + site_label(data) + b);
            assert(s@ =~= before_site + site_label(data) + b + escape_xml(truncated(data.title@, 50))
                + tail@);
        }
        s
    }
}

impl Default for OgImageGenerator {
    /// A generator with the default configuration and the standard template.
    fn default() -> (r: OgImageGenerator)
        ensures
            r.cfg().width == 1200 && r.cfg().height == 630,
    {
        OgImageGenerator::new(OgImageConfig::new())
    }
}

} // verus!
