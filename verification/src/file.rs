//! Where asset files are looked up.
use vstd::prelude::*;
use crate::chars::{push_char, push_text};

verus! {

/// The file settings of the context: the folder that holds the assets on a PC.
pub struct FileContext {
    pub pc_assets_folder: Option<String>,
}

impl FileContext {
    pub fn new() -> (c: FileContext)
        ensures
            c.pc_assets_folder is None,
    {
        FileContext { pc_assets_folder: None }
    }
}

/// Makes files be looked up under `path` on a PC, so that the same paths work
/// there as on platforms that load them from their own asset folder.
pub fn set_pc_assets_folder(ctx: &mut FileContext, path: &str)
    ensures
        final(ctx).pc_assets_folder is Some,
        final(ctx).pc_assets_folder->0@ == path@,
{
    ctx.pc_assets_folder = Some(path.to_owned());
}

/// The path under which a file is loaded on a PC: under the assets folder when
/// one is set, joined with `/`.
pub fn asset_path(ctx: &FileContext, path: &str) -> (r: String)
    ensures
        r@ == match ctx.pc_assets_folder {
            Some(folder) => folder@ + seq!['/'] + path@,
            None => path@,
        },
{
    match &ctx.pc_assets_folder {
        Some(folder) => {
            let mut r = folder.clone();
            push_char(&mut r, '/');
            push_text(&mut r, path);
            r
        },
        None => path.to_owned(),
    }
}

} // verus!
