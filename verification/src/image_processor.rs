//! The per-image decisions of the processor: where the crops go and
//! whether a crop fits in the image.

use vstd::prelude::*;
use crate::config::ProcessingConfig;
use crate::paths::{file_stem, file_stem_of};
use crate::text::{decimal, decimal_injective, decimal_nonempty, decimal_string, matches_prefix};

verus! {

/// The directory that receives the files made from an input: the
/// configured one, else the current directory.
pub open spec fn output_dir_for(custom: Option<String>) -> Seq<char> {
    match custom {
        Some(d) => d@,
        None => "."@,
    }
}

/// The input's file stem, or `fallback` when it has none.
pub open spec fn stem_or(input: Seq<char>, fallback: Seq<char>) -> Seq<char> {
    match file_stem_of(input) {
        Some(s) => s,
        None => fallback,
    }
}

/// `{dir}/{stem}_{index + 1}.png`: the file of the crop at `index`
/// (counting from zero) made from `input`.
pub open spec fn crop_file_path(custom: Option<String>, input: Seq<char>, index: nat) -> Seq<char> {
    output_dir_for(custom) + "/"@ + stem_or(input, "output"@) + "_"@ + decimal(index + 1)
        + ".png"@
}

/// `{dir}/{stem}_debug.png`: the file of the debug preview made from
/// `input`.
pub open spec fn debug_preview_file_path(custom: Option<String>, input: Seq<char>) -> Seq<char> {
    output_dir_for(custom) + "/"@ + stem_or(input, "debug"@) + "_debug.png"@
}

/// Crops detected photographs out of images and names the files that hold
/// them.
pub struct ImageProcessor {
    config: ProcessingConfig,
}

impl ImageProcessor {
    pub closed spec fn spec_config(&self) -> ProcessingConfig {
        self.config
    }

    pub fn new(config: ProcessingConfig) -> (p: ImageProcessor)
        ensures
            p.spec_config() == config,
    {
        ImageProcessor { config }
    }

    pub fn config(&self) -> (c: &ProcessingConfig)
        ensures
            *c == self.spec_config(),
    {
        &self.config
    }

    /// Whether a file found in an input folder is one to process: its name
    /// starts with the configured prefix.
    pub fn accepts_file_name(&self, file_name: &str) -> (b: bool)
        ensures
            b == self.spec_config().prefix@.is_prefix_of(file_name@),
    {
        matches_prefix(file_name, self.config.prefix.as_str())
    }

    /// The directory that receives the output files.
    pub fn output_dir(&self) -> (d: String)
        ensures
            d@ == output_dir_for(self.spec_config().output_dir),
    {
        match &self.config.output_dir {
            Some(dir) => dir.clone(),
            None => String::from_str("."),
        }
    }

    /// The file that receives the crop at `index` (counting from zero).
    pub fn output_file_path(&self, input_path: &str, index: usize) -> (path: String)
        requires
            index < usize::MAX,
        ensures
            path@ == crop_file_path(self.spec_config().output_dir, input_path@, index as nat),
    {
        let dir = self.output_dir();
        let stem = match file_stem(input_path) {
            Some(s) => s,
            None => String::from_str("output"),
        };
        let number = decimal_string((index + 1) as u64);
        dir.concat("/").concat(stem.as_str()).concat("_").concat(number.as_str()).concat(".png")
    }

    /// The file that receives the debug preview of `input_path`.
    pub fn debug_preview_path(&self, input_path: &str) -> (path: String)
        ensures
            path@ == debug_preview_file_path(self.spec_config().output_dir, input_path@),
    {
        let dir = self.output_dir();
        let stem = match file_stem(input_path) {
            Some(s) => s,
            None => String::from_str("debug"),
        };
        dir.concat("/").concat(stem.as_str()).concat("_debug.png")
    }
}

/// A region of the full-size image to cut out.
#[derive(Debug, Clone, Copy, PartialEq, Eq, Structural)]
pub struct CropRegion {
    pub x: u32,
    pub y: u32,
    pub width: u32,
    pub height: u32,
}

/// Accepts the crop at (`x`, `y`) of size `width` x `height` when it lies
/// inside an image of size `image_width` x `image_height`, and refuses it
/// otherwise.
pub fn check_crop(x: u32, y: u32, width: u32, height: u32, image_width: u32, image_height: u32) -> (r: Result<CropRegion, String>)
    ensures
        (x + width > image_width || y + height > image_height) <==> r is Err,
        r matches Ok(c) ==> c == (CropRegion { x, y, width, height }),
        r matches Err(e) ==> e@ == "Crop rectangle exceeds image bounds"@,
{
    if x as u64 + width as u64 > image_width as u64 || y as u64 + height as u64 > image_height as u64 {
        Err(String::from_str("Crop rectangle exceeds image bounds"))
    } else {
        Ok(CropRegion { x, y, width, height })
    }
}

} // verus!

verus! {

proof fn lemma_split_eq(a: Seq<char>, x: Seq<char>, y: Seq<char>, s: Seq<char>)
    requires
        a + x + s == a + y + s,
    ensures
        x == y,
{
    let l = a + x + s;
    let r = a + y + s;
    assert(l.len() == a.len() + x.len() + s.len());
    assert(r.len() == a.len() + y.len() + s.len());
    assert(x.len() == y.len());
    assert forall|i: int| 0 <= i < x.len() implies x[i] == y[i] by {
        assert(l[a.len() + i] == x[i]);
        assert(r[a.len() + i] == y[i]);
    }
    assert(x =~= y);
}

/// Each crop of an image is saved under its own file name.
pub proof fn crop_files_are_distinct(custom: Option<String>, input: Seq<char>, i: nat, j: nat)
    requires
        i != j,
    ensures
        crop_file_path(custom, input, i) != crop_file_path(custom, input, j),
{
    let prefix = output_dir_for(custom) + "/"@ + stem_or(input, "output"@) + "_"@;
    assert(crop_file_path(custom, input, i) =~= prefix + decimal(i + 1) + ".png"@);
    assert(crop_file_path(custom, input, j) =~= prefix + decimal(j + 1) + ".png"@);
    if crop_file_path(custom, input, i) == crop_file_path(custom, input, j) {
        lemma_split_eq(prefix, decimal(i + 1), decimal(j + 1), ".png"@);
        decimal_injective(i + 1, j + 1);
    }
}

/// The debug preview of an image never takes the name of one of its crops.
pub proof fn debug_preview_is_not_a_crop(custom: Option<String>, input: Seq<char>, i: nat)
    ensures
        debug_preview_file_path(custom, input) != crop_file_path(custom, input, i),
{
    let d = output_dir_for(custom) + "/"@;
    let dbg = debug_preview_file_path(custom, input);
    let crop = crop_file_path(custom, input, i);
    reveal_strlit("_debug.png");
    reveal_strlit("debug");
    reveal_strlit("output");
    reveal_strlit("_");
    decimal_nonempty(i + 1);
    match file_stem_of(input) {
        Some(stem) => {
            assert(dbg =~= (d + stem) + "_debug.png"@);
            assert(crop =~= (d + stem) + ("_"@ + decimal(i + 1) + ".png"@));
            let at: int = (d + stem).len() as int + 1;
            assert(dbg[at] == 'd');
            assert(crop[at] == decimal(i + 1)[0]);
        },
        None => {
            assert(dbg =~= d + ("debug"@ + "_debug.png"@));
            assert(crop =~= d + ("output"@ + "_"@ + decimal(i + 1) + ".png"@));
            assert(dbg[d.len() as int] == 'd');
            assert(crop[d.len() as int] == 'o');
        },
    }
}

} // verus!
