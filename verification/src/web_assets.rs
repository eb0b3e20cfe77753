//! The files that the web server hands out, and the pages with the device's data in them.
//!
//! The files themselves are given from outside.
use crate::text;
use vstd::prelude::*;
use vstd::string::*;

verus! {

/// A file, with its type and how long it may be kept.
#[derive(Debug, Clone, Copy)]
pub struct StaticAsset {
    pub content_type: &'static str,
    pub cache_control: &'static str,
    pub body: &'static [u8],
}

/// Whether a file has a type, may be kept so long and holds some bytes.
pub open spec fn is_asset(
    asset: StaticAsset,
    content_type: Seq<char>,
    cache_control: Seq<char>,
    body: Seq<u8>,
) -> bool {
    asset.content_type@ == content_type && asset.cache_control@ == cache_control && asset.body@
        == body
}

/// A page of the portal: a template with the names of firmware and board.
pub open spec fn portal_page(template: Seq<char>, build_id: Seq<char>, board_id: Seq<char>) -> Seq<
    char,
> {
    text::replaced(
        text::replaced(template, "{{BUILD_ID}}"@, build_id),
        "{{BOARD_ID}}"@,
        board_id,
    )
}

/// A page of the station: a template with the address and the names of firmware and board.
pub open spec fn station_page(
    template: Seq<char>,
    ip_addr: Seq<char>,
    build_id: Seq<char>,
    board_id: Seq<char>,
) -> Seq<char> {
    portal_page(text::replaced(template, "{{IP_ADDR}}"@, ip_addr), build_id, board_id)
}

fn fill_portal(template: &str, build_id: &str, board_id: &str) -> (r: String)
    ensures
        r@ == portal_page(template@, build_id@, board_id@),
{
    proof {
        reveal_strlit("{{BUILD_ID}}");
        reveal_strlit("{{BOARD_ID}}");
    }
    let with_build = text::replace_all(template, "{{BUILD_ID}}", build_id);
    text::replace_all(with_build.as_str(), "{{BOARD_ID}}", board_id)
}

fn fill_station(template: &str, ip_addr: &str, build_id: &str, board_id: &str) -> (r: String)
    ensures
        r@ == station_page(template@, ip_addr@, build_id@, board_id@),
{
    proof {
        reveal_strlit("{{IP_ADDR}}");
    }
    let with_address = text::replace_all(template, "{{IP_ADDR}}", ip_addr);
    fill_portal(with_address.as_str(), build_id, board_id)
}

/// The portal's page.
pub fn captive_index_html(template: &str, build_id: &str, board_id: &str) -> (r: String)
    ensures
        r@ == portal_page(template@, build_id@, board_id@),
{
    fill_portal(template, build_id, board_id)
}

/// The portal's page after credentials were saved.
pub fn captive_success_html(template: &str, build_id: &str, board_id: &str) -> (r: String)
    ensures
        r@ == portal_page(template@, build_id@, board_id@),
{
    fill_portal(template, build_id, board_id)
}

/// The station's page.
pub fn station_index_html(template: &str, ip_addr: &str, build_id: &str, board_id: &str) -> (r:
    String)
    ensures
        r@ == station_page(template@, ip_addr@, build_id@, board_id@),
{
    fill_station(template, ip_addr, build_id, board_id)
}

/// The settings page.
pub fn settings_index_html(template: &str, ip_addr: &str, build_id: &str, board_id: &str) -> (r:
    String)
    ensures
        r@ == station_page(template@, ip_addr@, build_id@, board_id@),
{
    fill_station(template, ip_addr, build_id, board_id)
}

fn style_sheet(body: &'static [u8]) -> (r: StaticAsset)
    ensures
        is_asset(r, "text/css; charset=utf-8"@, "public, max-age=86400"@, body@),
{
    StaticAsset {
        content_type: "text/css; charset=utf-8",
        cache_control: "public, max-age=86400",
        body,
    }
}

fn script(body: &'static [u8]) -> (r: StaticAsset)
    ensures
        is_asset(r, "application/javascript; charset=utf-8"@, "public, max-age=86400"@, body@),
{
    StaticAsset {
        content_type: "application/javascript; charset=utf-8",
        cache_control: "public, max-age=86400",
        body,
    }
}

/// A file of the portal, out of its style sheet and its script.
pub fn captive_static(path: &str, css: &'static [u8], js: &'static [u8]) -> (r: Option<StaticAsset>)
    ensures
        if path@ == "/portal.css"@ {
            r matches Some(asset) && is_asset(
                asset,
                "text/css; charset=utf-8"@,
                "public, max-age=86400"@,
                css@,
            )
        } else if path@ == "/portal.js"@ {
            r matches Some(asset) && is_asset(
                asset,
                "application/javascript; charset=utf-8"@,
                "public, max-age=86400"@,
                js@,
            )
        } else {
            r is None
        },
{
    if text::same_text(path, "/portal.css") {
        Some(style_sheet(css))
    } else if text::same_text(path, "/portal.js") {
        Some(script(js))
    } else {
        None
    }
}

/// The station's style sheet.
pub fn station_css(body: &'static [u8]) -> (r: StaticAsset)
    ensures
        is_asset(r, "text/css; charset=utf-8"@, "public, max-age=86400"@, body@),
{
    style_sheet(body)
}

/// The style sheet that all pages have.
pub fn base_css(body: &'static [u8]) -> (r: StaticAsset)
    ensures
        is_asset(r, "text/css; charset=utf-8"@, "public, max-age=86400"@, body@),
{
    style_sheet(body)
}

/// The station's script.
pub fn station_js(body: &'static [u8]) -> (r: StaticAsset)
    ensures
        is_asset(r, "application/javascript; charset=utf-8"@, "public, max-age=86400"@, body@),
{
    script(body)
}

/// The style sheet of the settings page.
pub fn settings_css(body: &'static [u8]) -> (r: StaticAsset)
    ensures
        is_asset(r, "text/css; charset=utf-8"@, "public, max-age=86400"@, body@),
{
    style_sheet(body)
}

/// The script of the settings page.
pub fn settings_js(body: &'static [u8]) -> (r: StaticAsset)
    ensures
        is_asset(r, "application/javascript; charset=utf-8"@, "public, max-age=86400"@, body@),
{
    script(body)
}

/// The script of the charts. It may be kept for a week.
pub fn uplot_js(body: &'static [u8]) -> (r: StaticAsset)
    ensures
        is_asset(r, "application/javascript; charset=utf-8"@, "public, max-age=604800"@, body@),
{
    StaticAsset {
        content_type: "application/javascript; charset=utf-8",
        cache_control: "public, max-age=604800",
        body,
    }
}

/// The style sheet of the charts. It may be kept for a week.
pub fn uplot_css(body: &'static [u8]) -> (r: StaticAsset)
    ensures
        is_asset(r, "text/css; charset=utf-8"@, "public, max-age=604800"@, body@),
{
    StaticAsset {
        content_type: "text/css; charset=utf-8",
        cache_control: "public, max-age=604800",
        body,
    }
}

} // verus!
