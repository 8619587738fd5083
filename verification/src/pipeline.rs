use vstd::prelude::*;
use vstd::string::*;
use crate::BuildError;
use crate::manifest::ManifestEntry;
use crate::parse::{parse, spec_date_display, spec_date_key, spec_image_refs, spec_lines,
    spec_valid_dateline};
use crate::render::{markdown_html, render_list, render_post_page, rendered_kv2, rendered_list,
    renders_kv2, renders_list, html_of, spec_template_index, spec_template_single, template_index,
    IndexItem};
use crate::sanitize::{sanitize_filename, spec_sanitize};

verus! {

/// The file name stem of a Markdown source file: the name with its `.md`
/// suffix removed, or nothing for a file not named that way.
pub open spec fn spec_md_stem(f: Seq<char>) -> Option<Seq<char>> {
    if f.len() >= 3 && f[f.len() - 3] == '.' && f[f.len() - 2] == 'm' && f[f.len() - 1] == 'd' {
        Some(f.subrange(0, f.len() - 3))
    } else {
        None
    }
}

/// Strips the `.md` suffix off a file name, or reports that the file is no
/// Markdown source.
pub fn md_stem(filename: &str) -> (r: Option<String>)
    ensures
        match r {
            Some(s) => spec_md_stem(filename@) == Some(s@),
            None => spec_md_stem(filename@) is None,
        },
{
    let n = filename.unicode_len();
    if n >= 3 && filename.get_char(n - 3) == '.' && filename.get_char(n - 2) == 'm'
        && filename.get_char(n - 1) == 'd' {
        Some(String::from_str(filename.substring_char(0, n - 3)))
    } else {
        None
    }
}

/// One attachment copy a post asks for: both paths are relative, the source
/// to the input directory, the destination to the output directory.
pub struct CopyJob {
    pub src_rel: String,
    pub dst_rel: String,
}

impl View for CopyJob {
    type V = (Seq<char>, Seq<char>);

    open spec fn view(&self) -> (Seq<char>, Seq<char>) {
        (self.src_rel@, self.dst_rel@)
    }
}

/// The copies a post's image references ask for: each reference `p` is
/// copied from `attachments/p` to `slug/p`.
pub open spec fn spec_copy_jobs(slug: Seq<char>, refs: Seq<Seq<char>>) -> Seq<
    (Seq<char>, Seq<char>),
> {
    refs.map_values(|p: Seq<char>| ("attachments/"@ + p, slug + "/"@ + p))
}

/// Everything the build of one post produces: the manifest fields, the
/// attachment copies to make, and the finished page.
pub struct ProcessedPost {
    pub title: String,
    pub slug: String,
    pub date_display: String,
    pub date_key: String,
    pub copies: Vec<CopyJob>,
    pub page_html: String,
}

impl ProcessedPost {
    /// The manifest row of this post.
    pub fn manifest_entry(&self) -> (r: ManifestEntry)
        ensures
            r.title@ == self.title@,
            r.slug@ == self.slug@,
            r.date_display@ == self.date_display@,
            r.date_key@ == self.date_key@,
    {
        ManifestEntry {
            title: self.title.clone(),
            slug: self.slug.clone(),
            date_display: self.date_display.clone(),
            date_key: self.date_key.clone(),
        }
    }

    /// Where the post's page goes, relative to the output directory.
    pub fn page_rel_path(&self) -> (r: String)
        ensures
            r@ == self.slug@ + "/index.html"@,
    {
        let mut r = self.slug.clone();
        r.append("/index.html");
        r
    }
}

/// Builds the copy list for a slug and a list of image references.
fn copy_jobs(slug: &String, refs: &Vec<String>) -> (r: Vec<CopyJob>)
    ensures
        r@.map_values(|c: CopyJob| c@) == spec_copy_jobs(slug@, refs.deep_view()),
{
    let mut r: Vec<CopyJob> = Vec::new();
    let mut i: usize = 0;
    while i < refs.len()
        invariant
            i <= refs@.len(),
            r@.map_values(|c: CopyJob| c@) == spec_copy_jobs(
                slug@,
                refs.deep_view().subrange(0, i as int),
            ),
        decreases refs@.len() - i,
    {
        let mut src = String::from_str("attachments/");
        src.append(refs[i].as_str());
        let mut dst = slug.clone();
        dst.append("/");
        dst.append(refs[i].as_str());
        let job = CopyJob { src_rel: src, dst_rel: dst };
        let ghost jv = job@;
        let ghost old_m = r@.map_values(|c: CopyJob| c@);
        r.push(job);
        proof {
            assert(refs.deep_view()[i as int] == refs@[i as int]@);
            assert(r@.map_values(|c: CopyJob| c@) =~= old_m.push(jv));
            assert(spec_copy_jobs(slug@, refs.deep_view().subrange(0, i + 1)) =~= old_m.push(jv));
        }
        i = i + 1;
    }
    proof {
        assert(refs.deep_view().subrange(0, refs@.len() as int) =~= refs.deep_view());
    }
    r
}

/// Builds one post: derives title and slug from the file name, parses the
/// text, converts it to HTML, renders the page, and lists the attachment
/// copies. A missing or malformed date line is reported against the file
/// name; a template failure is a render error.
pub fn process_post(md_filename: &str, contents: &str) -> (r: Result<ProcessedPost, BuildError>)
    requires
        spec_md_stem(md_filename@) is Some,
    ensures
        ({
            let stem = spec_md_stem(md_filename@)->Some_0;
            let ls = spec_lines(contents@);
            let bad = ls.len() == 0 || !spec_valid_dateline(ls.last());
            &&& (r matches Err(BuildError::InvalidDateLine(_))) <==> bad
            &&& r matches Err(BuildError::InvalidDateLine(f)) ==> f@ == md_filename@
            &&& r is Ok <==> !bad && renders_kv2(
                spec_template_single(),
                "title"@,
                stem,
                "body"@,
                html_of(contents@),
            )
            &&& r matches Ok(p) ==> {
                &&& p.title@ == stem
                &&& p.slug@ == spec_sanitize(stem)
                &&& p.date_key@ == spec_date_key(ls.last())
                &&& p.date_display@ == spec_date_display(ls.last())
                &&& p.copies@.map_values(|c: CopyJob| c@) == spec_copy_jobs(
                    spec_sanitize(stem),
                    spec_image_refs(ls),
                )
                &&& p.page_html@ == rendered_kv2(
                    spec_template_single(),
                    "title"@,
                    stem,
                    "body"@,
                    html_of(contents@),
                )
            }
            &&& (r matches Err(BuildError::RenderError)) <==> !bad && !renders_kv2(
                spec_template_single(),
                "title"@,
                stem,
                "body"@,
                html_of(contents@),
            )
        }),
{
    let stem = match md_stem(md_filename) {
        Some(s) => s,
        None => { return Err(BuildError::RenderError); },
    };
    let meta = match parse(contents, stem.as_str()) {
        Ok(m) => m,
        Err(_) => { return Err(BuildError::InvalidDateLine(String::from_str(md_filename))); },
    };
    let slug = sanitize_filename(&meta.title);
    let html = markdown_html(contents);
    let page = match render_post_page(stem.as_str(), html.as_str()) {
        Some(p) => p,
        None => { return Err(BuildError::RenderError); },
    };
    let copies = copy_jobs(&slug, &meta.image_refs);
    Ok(
        ProcessedPost {
            title: meta.title,
            slug,
            date_display: meta.date_display,
            date_key: meta.date_key,
            copies,
            page_html: page,
        },
    )
}

/// The rows the index template is handed, one per manifest entry: its
/// title, its page path `slug/`, and its display date.
pub open spec fn spec_index_items(es: Seq<ManifestEntry>) -> Seq<(Seq<char>, Seq<char>, Seq<char>)> {
    es.map_values(|e: ManifestEntry| (e.title@, e.slug@ + "/"@, e.date_display@))
}

/// Builds the index rows of a manifest.
fn build_index_items(entries: &Vec<ManifestEntry>) -> (r: Vec<IndexItem>)
    ensures
        r@.map_values(|it: IndexItem| it@) == spec_index_items(entries@),
{
    let mut r: Vec<IndexItem> = Vec::new();
    let mut i: usize = 0;
    while i < entries.len()
        invariant
            i <= entries@.len(),
            r@.map_values(|it: IndexItem| it@) == spec_index_items(entries@.subrange(0, i as int)),
        decreases entries@.len() - i,
    {
        let mut path = entries[i].slug.clone();
        path.append("/");
        let item = IndexItem {
            title: entries[i].title.clone(),
            path,
            date: entries[i].date_display.clone(),
        };
        let ghost iv = item@;
        let ghost old_m = r@.map_values(|it: IndexItem| it@);
        r.push(item);
        proof {
            assert(r@.map_values(|it: IndexItem| it@) =~= old_m.push(iv));
            assert(spec_index_items(entries@.subrange(0, i + 1)) =~= old_m.push(iv));
        }
        i = i + 1;
    }
    proof {
        assert(entries@.subrange(0, entries@.len() as int) =~= entries@);
    }
    r
}

/// Renders the site's front page from a title and the sorted manifest;
/// fails exactly when the template engine does.
pub fn render_index(site_title: &str, entries: &Vec<ManifestEntry>) -> (r: Option<String>)
    ensures
        r is Some <==> renders_list(
            spec_template_index(),
            "title"@,
            site_title@,
            "items"@,
            spec_index_items(entries@),
        ),
        r matches Some(s) ==> s@ == rendered_list(
            spec_template_index(),
            "title"@,
            site_title@,
            "items"@,
            spec_index_items(entries@),
        ),
{
    let items = build_index_items(entries);
    render_list(template_index(), "title", site_title, "items", &items)
}

/// Looks for two manifest entries whose titles collapsed to one slug, which
/// would make their pages overwrite each other.
pub fn find_slug_collision(entries: &Vec<ManifestEntry>) -> (r: Option<(usize, usize)>)
    ensures
        match r {
            Some(p) => p.0 < p.1 < entries@.len() && entries@[p.0 as int].slug@
                == entries@[p.1 as int].slug@,
            None => forall|a: int, b: int|
                0 <= a < b < entries@.len() ==> entries@[a].slug@ != entries@[b].slug@,
        },
{
    let n = entries.len();
    let mut i: usize = 0;
    while i < n
        invariant
            i <= n,
            n == entries@.len(),
            forall|a: int, b: int| 0 <= a < b < entries@.len() && a < i ==> entries@[a].slug@
                != entries@[b].slug@,
        decreases n - i,
    {
        let mut j: usize = i + 1;
        while j < n
            invariant
                i < j <= n,
                n == entries@.len(),
                forall|b: int| i < b < j ==> entries@[i as int].slug@ != entries@[b].slug@,
            decreases n - j,
        {
            if entries[i].slug == entries[j].slug {
                return Some((i, j));
            }
            j = j + 1;
        }
        i = i + 1;
    }
    None
}

} // verus!
