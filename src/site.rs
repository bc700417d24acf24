//! The page model: classifying content files, extracting pages and
//! gathering them into a site.
use vstd::prelude::*;
use vstd::string::StringSliceAdditionalSpecFns;
use crate::cache::{CacheContext, FileMetadata, map_of_entries};
use crate::markdown::{MarkupError, image_count, images_html, markdown_events, parse_markdown_with_tailwind, run};
use crate::paths::{file_name, file_name_of, file_stem, file_stem_of, join_path, joined, parent_dir, parent_of};

verus! {

/// The frontmatter fields that a page takes over.
#[derive(Debug)]
pub struct Frontmatter {
    pub title: Option<String>,
    pub date: Option<String>,
    pub tags: Option<Vec<String>>,
    pub description: Option<String>,
}

/// Where a page goes: the index, an information page, a blog post, or
/// nowhere.
#[derive(Clone, Copy, Debug, PartialEq, Eq, Structural)]
pub enum PageType {
    Index,
    Page,
    Post,
    Unknown,
}

/// A content file's metadata and markdown body.
#[derive(Debug)]
pub struct Page {
    pub page_type: PageType,
    pub name: String,
    pub title: Option<String>,
    pub url: Option<String>,
    pub description: Option<String>,
    pub tags: Option<Vec<String>>,
    pub date: Option<String>,
    pub content: String,
}

/// Site-wide metadata.
#[derive(Debug)]
pub struct SiteMetadata {
    pub base_url: String,
    pub author: String,
    pub description: String,
}

/// Where content, templates, output and static files live.
#[derive(Debug)]
pub struct Paths {
    pub content_dir: String,
    pub template_dir: String,
    pub output_dir: String,
    pub static_dir: String,
}

/// Build switches.
#[derive(Debug)]
pub struct Build {
    pub minify_html: bool,
    pub generate_sitemap: bool,
    pub cache: bool,
}

/// The resolved configuration.
#[derive(Debug)]
pub struct Config {
    pub metadata: SiteMetadata,
    pub paths: Paths,
    pub build: Build,
}

/// The pages of a site: at most one index, then pages and posts in the
/// order they were added.
#[derive(Debug)]
pub struct Site {
    pub configuration: Config,
    pub index: Option<Page>,
    pub pages: Vec<Page>,
    pub posts: Vec<Page>,
}

/// What rendering one page needs: the file to write, the template to use
/// and the page's body as HTML.
#[derive(Debug)]
pub struct RenderJob {
    pub output_path: String,
    pub template: String,
    pub content_html: String,
}

/// The kind of page that a directory named `dir` holds.
pub open spec fn page_type_of(dir: Seq<char>) -> PageType {
    if dir == "index"@ {
        PageType::Index
    } else if dir == "page"@ {
        PageType::Page
    } else if dir == "post"@ {
        PageType::Post
    } else {
        PageType::Unknown
    }
}

/// The name of the template for a kind of page.
pub open spec fn template_name_of(t: PageType) -> Seq<char> {
    match t {
        PageType::Index => "index"@,
        PageType::Page => "page"@,
        PageType::Post => "post"@,
        PageType::Unknown => Seq::empty(),
    }
}

/// The address of the page named `name`.
pub open spec fn page_url(base_url: Seq<char>, name: Seq<char>) -> Seq<char> {
    base_url + "/"@ + name + ".html"@
}

/// `p` is the page of kind `kind` for the file at `path`.
pub open spec fn is_page_for(p: Page, path: Seq<char>, base_url: Seq<char>, kind: PageType) -> bool {
    &&& p.page_type == kind
    &&& p.name@ == file_stem_of(path)
    &&& match p.url {
        Some(u) => u@ == page_url(base_url, file_stem_of(path)),
        None => false,
    }
}

/// The name of the directory that holds the file at `path`.
pub open spec fn folder_name_of(path: Seq<char>) -> Seq<char> {
    file_name_of(parent_of(path))
}

fn text_eq(a: &str, b: &str) -> (r: bool)
    ensures
        r == (a@ == b@),
{
    String::from_str(a) == String::from_str(b)
}

/// The kind of page that a directory named `dir` holds.
pub fn page_type_for(dir: &str) -> (r: PageType)
    ensures
        r == page_type_of(dir@),
{
    if text_eq(dir, "index") {
        PageType::Index
    } else if text_eq(dir, "page") {
        PageType::Page
    } else if text_eq(dir, "post") {
        PageType::Post
    } else {
        PageType::Unknown
    }
}

/// The name of the directory that holds the file at `path_to_file`, which
/// names the template its page uses.
pub fn get_template_name(path_to_file: &str) -> (r: String)
    ensures
        r@ == folder_name_of(path_to_file@),
{
    let folder = parent_dir(path_to_file);
    file_name(folder.as_str())
}

/// The page for the file at `path`: named after the file's stem, with its
/// address under `base_url` and the frontmatter's fields.
pub fn extract_page_info(
    base_url: String,
    path: &str,
    frontmatter: Frontmatter,
    content: String,
    page_type: PageType,
) -> (r: Page)
    ensures
        r.page_type == page_type,
        r.name@ == file_stem_of(path@),
        r.url matches Some(u) && u@ == page_url(base_url@, file_stem_of(path@)),
        r.title == frontmatter.title,
        r.description == frontmatter.description,
        r.tags == frontmatter.tags,
        r.date == frontmatter.date,
        r.content == content,
{
    let name = file_stem(path);
    let mut url = base_url;
    url.append("/");
    url.append(name.as_str());
    url.append(".html");
    Page {
        page_type,
        name,
        title: frontmatter.title,
        url: Some(url),
        description: frontmatter.description,
        tags: frontmatter.tags,
        date: frontmatter.date,
        content,
    }
}

/// `config` with each directory resolved against `base_path`.
pub fn reconcile_configuration_directory_paths(base_path: &str, config: Paths) -> (r: Paths)
    ensures
        r.content_dir@ == joined(base_path@, config.content_dir@),
        r.template_dir@ == joined(base_path@, config.template_dir@),
        r.output_dir@ == joined(base_path@, config.output_dir@),
        r.static_dir@ == joined(base_path@, config.static_dir@),
{
    Paths {
        content_dir: join_path(base_path, config.content_dir.as_str()),
        template_dir: join_path(base_path, config.template_dir.as_str()),
        output_dir: join_path(base_path, config.output_dir.as_str()),
        static_dir: join_path(base_path, config.static_dir.as_str()),
    }
}

/// The configuration read from the file at `config_path`, with its
/// directories resolved against the directory that holds that file.
pub fn retrieve_configuration(config_path: &str, config: Config) -> (r: Config)
    ensures
        r.metadata == config.metadata,
        r.build == config.build,
        r.paths.content_dir@ == joined(parent_of(config_path@), config.paths.content_dir@),
        r.paths.template_dir@ == joined(parent_of(config_path@), config.paths.template_dir@),
        r.paths.output_dir@ == joined(parent_of(config_path@), config.paths.output_dir@),
        r.paths.static_dir@ == joined(parent_of(config_path@), config.paths.static_dir@),
{
    let config_dir = parent_dir(config_path);
    let paths = reconcile_configuration_directory_paths(config_dir.as_str(), config.paths);
    Config { metadata: config.metadata, paths, build: config.build }
}

/// Where the cache of content files is stored: `cache.json` in the output
/// directory.
pub open spec fn cache_path_of(config: &Config) -> Seq<char> {
    joined(config.paths.output_dir@, "cache.json"@)
}

/// The content cache of `config`, built from the entries stored for it, or
/// empty where none were stored.
pub fn retrieve_cache(config: &Config, stored: Option<Vec<(String, FileMetadata)>>) -> (r: CacheContext)
    ensures
        r.wf(),
        r.path@ == cache_path_of(config),
        r.cache@ == match stored {
            Some(e) => map_of_entries(e@),
            None => Map::empty(),
        },
{
    let cache_path = join_path(config.paths.output_dir.as_str(), "cache.json");
    CacheContext::load_or_default(cache_path, stored)
}

impl Site {
    /// A site with no pages.
    pub fn new(config: Config) -> (r: Site)
        ensures
            r.configuration == config,
            r.index is None,
            r.pages@.len() == 0,
            r.posts@.len() == 0,
    {
        Site { configuration: config, index: None, pages: Vec::new(), posts: Vec::new() }
    }

    /// Adds `page` where `page_type` says: as the index, replacing an
    /// earlier one, at the end of the pages or of the posts, or nowhere.
    pub fn add_page(&mut self, page: Page, page_type: PageType)
        ensures
            final(self).configuration == old(self).configuration,
            final(self).index == if page_type == PageType::Index {
                Some(page)
            } else {
                old(self).index
            },
            final(self).pages@ == if page_type == PageType::Page {
                old(self).pages@.push(page)
            } else {
                old(self).pages@
            },
            final(self).posts@ == if page_type == PageType::Post {
                old(self).posts@.push(page)
            } else {
                old(self).posts@
            },
    {
        match page_type {
            PageType::Index => {
                self.index = Some(page);
            },
            PageType::Page => {
                self.pages.push(page);
            },
            PageType::Post => {
                self.posts.push(page);
            },
            PageType::Unknown => {},
        }
    }

    /// The name of the template for `page`.
    pub fn get_template_name(page: &Page) -> (r: String)
        ensures
            r@ == template_name_of(page.page_type),
    {
        match page.page_type {
            PageType::Index => String::from_str("index"),
            PageType::Page => String::from_str("page"),
            PageType::Post => String::from_str("post"),
            PageType::Unknown => String::new(),
        }
    }

    /// Adds the content file at `path`, whose frontmatter and body are
    /// `parsed`, or nothing where it has no frontmatter. Its kind comes from
    /// the name of the directory that holds it.
    pub fn add_content_file(&mut self, path: &str, parsed: Option<(Frontmatter, String)>) -> (r: Option<PageType>)
        ensures
            final(self).configuration == old(self).configuration,
            r == match parsed {
                Some(_) => Some(page_type_of(folder_name_of(path@))),
                None => None::<PageType>,
            },
            r is None ==> final(self).index == old(self).index && final(self).pages@ == old(self).pages@
                && final(self).posts@ == old(self).posts@,
            r == Some(PageType::Unknown) ==> final(self).index == old(self).index && final(self).pages@
                == old(self).pages@ && final(self).posts@ == old(self).posts@,
            r == Some(PageType::Index) ==> (final(self).index matches Some(p) && is_page_for(
                p,
                path@,
                old(self).configuration.metadata.base_url@,
                PageType::Index,
            )),
            r == Some(PageType::Page) ==> final(self).pages@.len() == old(self).pages@.len() + 1
                && final(self).pages@.drop_last() == old(self).pages@ && is_page_for(
                final(self).pages@.last(),
                path@,
                old(self).configuration.metadata.base_url@,
                PageType::Page,
            ),
            r == Some(PageType::Post) ==> final(self).posts@.len() == old(self).posts@.len() + 1
                && final(self).posts@.drop_last() == old(self).posts@ && is_page_for(
                final(self).posts@.last(),
                path@,
                old(self).configuration.metadata.base_url@,
                PageType::Post,
            ),
    {
        let folder = get_template_name(path);
        let page_type = page_type_for(folder.as_str());
        match parsed {
            Some((front, content)) => {
                let base_url = self.configuration.metadata.base_url.clone();
                let page = extract_page_info(base_url, path, front, content, page_type);
                self.add_page(page, page_type);
                proof {
                    assert(self.pages@.drop_last() =~= old(self).pages@ || page_type != PageType::Page);
                    assert(self.posts@.drop_last() =~= old(self).posts@ || page_type != PageType::Post);
                }
                Some(page_type)
            },
            None => None,
        }
    }

    /// What rendering `page` needs: its output file in the output directory,
    /// its template, and its body transformed to HTML.
    pub fn prepare_page(&self, page: &Page, tera: &tera::Tera) -> (r: Result<RenderJob, MarkupError>)
        ensures
            r matches Ok(job) ==> job.output_path@ == joined(
                self.configuration.paths.output_dir@,
                page.name@ + ".html"@,
            ) && job.template@ == template_name_of(page.page_type) + ".html"@,
            exists|outcomes: Seq<Option<Seq<char>>>|
                outcomes.len() == image_count(markdown_events(page.content@)) && (r is Err <==> run(
                    markdown_events(page.content@),
                    images_html(outcomes),
                ) is None) && (r matches Ok(job) ==> job.content_html@ == run(
                    markdown_events(page.content@),
                    images_html(outcomes),
                )->Some_0.out),
    {
        let html = parse_markdown_with_tailwind(page.content.as_str(), tera);
        match html {
            Ok(content_html) => {
                let mut file = page.name.clone();
                file.append(".html");
                let output_path = join_path(self.configuration.paths.output_dir.as_str(), file.as_str());
                let mut template = Site::get_template_name(page);
                template.append(".html");
                Ok(RenderJob { output_path, template, content_html })
            },
            Err(e) => Err(e),
        }
    }
}

/// `b` in ASCII lower case.
pub open spec fn ascii_lower(b: u8) -> u8 {
    if 65 <= b <= 90 {
        (b + 32) as u8
    } else {
        b
    }
}

/// The bytes of `<script`.
pub open spec fn script_open() -> Seq<u8> {
    seq![60u8, 115u8, 99u8, 114u8, 105u8, 112u8, 116u8]
}

/// `html` holds `<script` at position `i`, in any ASCII case.
pub open spec fn script_tag_at(html: Seq<u8>, i: int) -> bool {
    &&& 0 <= i
    &&& i + 7 <= html.len()
    &&& forall|j: int| 0 <= j < 7 ==> ascii_lower(#[trigger] html[i + j]) == script_open()[j]
}

/// `html` holds no script element.
pub open spec fn has_no_script(html: Seq<u8>) -> bool {
    forall|i: int| !#[trigger] script_tag_at(html, i)
}

/// Relies on minify_html::minify, with JavaScript minified and CSS left as
/// it is. A page without script elements never reaches the JavaScript
/// minifier, whose panics on some modules are thereby ruled out.
#[verifier::external_body]
fn minify_bytes(html: &[u8]) -> (r: Vec<u8>)
    requires
        has_no_script(html@),
{
    minify_html::minify(html, &minify_html::Cfg { minify_js: true, minify_css: false, ..Default::default() })
}

fn script_byte(j: usize) -> (r: u8)
    requires
        j < 7,
    ensures
        r == script_open()[j as int],
{
    match j {
        0 => 60,
        1 => 115,
        2 => 99,
        3 => 114,
        4 => 105,
        5 => 112,
        _ => 116,
    }
}

fn script_tag_at_exec(html: &[u8], i: usize) -> (r: bool)
    requires
        i + 7 <= html@.len(),
    ensures
        r == script_tag_at(html@, i as int),
{
    let n = html.len();
    let mut j: usize = 0;
    while j < 7
        invariant
            j <= 7,
            n == html@.len(),
            i + 7 <= n,
            forall|m: int| 0 <= m < j ==> ascii_lower(#[trigger] html@[i + m]) == script_open()[m],
        decreases 7 - j,
    {
        let b = html[i + j];
        let lower = if 65 <= b && b <= 90 { b + 32 } else { b };
        if lower != script_byte(j) {
            return false;
        }
        j = j + 1;
    }
    true
}

/// Whether `html` holds no script element.
pub fn holds_no_script(html: &[u8]) -> (r: bool)
    ensures
        r == has_no_script(html@),
{
    let n = html.len();
    if n < 7 {
        return true;
    }
    let mut i: usize = 0;
    while i <= n - 7
        invariant
            n == html@.len(),
            n >= 7,
            i <= n - 6,
            forall|k: int| 0 <= k < i ==> !#[trigger] script_tag_at(html@, k),
        decreases n - i,
    {
        if script_tag_at_exec(html, i) {
            return false;
        }
        i = i + 1;
    }
    true
}

/// The bytes to write for a rendered page: minified where `minify` is set
/// and the page holds no script element, else the page as it is.
pub fn output_bytes(rendered: &str, minify: bool) -> (r: Vec<u8>)
    ensures
        !minify || !has_no_script(rendered.spec_bytes()) ==> r@ == rendered.spec_bytes(),
{
    let bytes = rendered.as_bytes();
    if minify && holds_no_script(bytes) {
        minify_bytes(bytes)
    } else {
        vstd::slice::slice_to_vec(bytes)
    }
}

} // verus!
