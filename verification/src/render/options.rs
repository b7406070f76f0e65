use vstd::prelude::*;
use vstd::string::*;
use vstd::utf8::encode_utf8;

verus! {

/// How a document is rendered.
#[derive(Debug, Clone)]
pub struct RenderOptions {
    /// Render preformatted lines (those that begin with a space) as a block
    /// quote rather than as a fenced code block.
    pub leading_space_as_blockquote: bool,
    /// Replace every `*` that comes from plain text by
    /// `obsidian_text_asterisk_replacement`, so that it is not taken for an
    /// emphasis marker.
    pub obsidian_text_asterisk_workaround: bool,
    pub obsidian_text_asterisk_replacement: String,
    /// Render a paragraph that holds one file link and nothing else as an
    /// image.
    pub render_file_links_as_images: bool,
    /// The wiki's base URL, for file pages and images.
    pub mediawiki_base_url: String,
    /// The width in pixels that images are asked for.
    pub default_image_width_px: u32,
    /// Prefer a `NNNpx` parameter of the file link over the default width.
    pub respect_wikitext_image_width: bool,
    /// Put a horizontal rule after an image that stands before the first
    /// heading.
    pub insert_hr_after_top_image: bool,
    /// Put a `References` heading before the references.
    pub emit_references_heading: bool,
    /// Put a `<br/>` line before the references' heading.
    pub emit_br_before_references: bool,
    /// Wrap tables and their captions in a centering container.
    pub center_tables_and_captions: bool,
}

/// The options over byte sequences.
pub struct RenderOptionsView {
    pub leading_space_as_blockquote: bool,
    pub obsidian_text_asterisk_workaround: bool,
    pub obsidian_text_asterisk_replacement: Seq<u8>,
    pub render_file_links_as_images: bool,
    pub mediawiki_base_url: Seq<u8>,
    pub default_image_width_px: u32,
    pub respect_wikitext_image_width: bool,
    pub insert_hr_after_top_image: bool,
    pub emit_references_heading: bool,
    pub emit_br_before_references: bool,
    pub center_tables_and_captions: bool,
}

impl View for RenderOptions {
    type V = RenderOptionsView;

    open spec fn view(&self) -> RenderOptionsView {
        RenderOptionsView {
            leading_space_as_blockquote: self.leading_space_as_blockquote,
            obsidian_text_asterisk_workaround: self.obsidian_text_asterisk_workaround,
            obsidian_text_asterisk_replacement: encode_utf8(
                self.obsidian_text_asterisk_replacement@,
            ),
            render_file_links_as_images: self.render_file_links_as_images,
            mediawiki_base_url: encode_utf8(self.mediawiki_base_url@),
            default_image_width_px: self.default_image_width_px,
            respect_wikitext_image_width: self.respect_wikitext_image_width,
            insert_hr_after_top_image: self.insert_hr_after_top_image,
            emit_references_heading: self.emit_references_heading,
            emit_br_before_references: self.emit_br_before_references,
            center_tables_and_captions: self.center_tables_and_captions,
        }
    }
}

/// The options that `RenderOptions::default` gives.
pub open spec fn default_options() -> RenderOptionsView {
    RenderOptionsView {
        leading_space_as_blockquote: true,
        obsidian_text_asterisk_workaround: true,
        obsidian_text_asterisk_replacement: "&middot;".spec_bytes(),
        render_file_links_as_images: true,
        mediawiki_base_url: "https://www.chessprogramming.org".spec_bytes(),
        default_image_width_px: 300,
        respect_wikitext_image_width: false,
        insert_hr_after_top_image: true,
        emit_references_heading: true,
        emit_br_before_references: true,
        center_tables_and_captions: false,
    }
}

impl Default for RenderOptions {
    fn default() -> (o: RenderOptions)
        ensures
            o@ == default_options(),
    {
        RenderOptions {
            leading_space_as_blockquote: true,
            obsidian_text_asterisk_workaround: true,
            obsidian_text_asterisk_replacement: "&middot;".to_owned(),
            render_file_links_as_images: true,
            mediawiki_base_url: "https://www.chessprogramming.org".to_owned(),
            default_image_width_px: 300,
            respect_wikitext_image_width: false,
            insert_hr_after_top_image: true,
            emit_references_heading: true,
            emit_br_before_references: true,
            center_tables_and_captions: false,
        }
    }
}

} // verus!
