//! Where the language-server binary lives.
//!
//! The embedding application knows the platform's local data
//! directory and whether the platform is Windows; the library builds
//! the binary's path from them.  Downloading and installing the
//! binary is the application's work.

use vstd::prelude::*;

verus! {

/// `datatex`
pub open spec fn app_dir_name() -> Seq<u8> {
    seq![100u8, 97, 116, 97, 116, 101, 120]
}

/// `bin`
pub open spec fn bin_dir_name() -> Seq<u8> {
    seq![98u8, 105, 110]
}

/// `texlab`
pub open spec fn texlab_name() -> Seq<u8> {
    seq![116u8, 101, 120, 108, 97, 98]
}

/// `texlab.exe`
pub open spec fn texlab_exe_name() -> Seq<u8> {
    seq![116u8, 101, 120, 108, 97, 98, 46, 101, 120, 101]
}

/// The path of the directory that holds the binary: the local data
/// directory, then the application's own directory, then `bin`,
/// joined with the platform's separator.
pub open spec fn texlab_dir_spec(data_local_dir: Seq<u8>, windows: bool) -> Seq<u8> {
    let sep: u8 = if windows {
        92
    } else {
        47
    };
    data_local_dir + seq![sep] + app_dir_name() + seq![sep] + bin_dir_name()
}

/// The full path of the binary inside that directory.
pub open spec fn texlab_path_spec(data_local_dir: Seq<u8>, windows: bool) -> Seq<u8> {
    let sep: u8 = if windows {
        92
    } else {
        47
    };
    texlab_dir_spec(data_local_dir, windows) + seq![sep] + (if windows {
        texlab_exe_name()
    } else {
        texlab_name()
    })
}

/// Builds the path under which the language-server binary is stored,
/// from the platform's local data directory.
pub fn get_texlab_path(data_local_dir: &[u8], windows: bool) -> (r: Vec<u8>)
    ensures
        r@ == texlab_path_spec(data_local_dir@, windows),
{
    let sep: u8 = if windows {
        92
    } else {
        47
    };
    let mut out: Vec<u8> = Vec::new();
    crate::bytes::push_bytes(&mut out, data_local_dir);
    out.push(sep);
    out.push(100);
    out.push(97);
    out.push(116);
    out.push(97);
    out.push(116);
    out.push(101);
    out.push(120);
    out.push(sep);
    out.push(98);
    out.push(105);
    out.push(110);
    out.push(sep);
    out.push(116);
    out.push(101);
    out.push(120);
    out.push(108);
    out.push(97);
    out.push(98);
    if windows {
        out.push(46);
        out.push(101);
        out.push(120);
        out.push(101);
    }
    proof {
        assert(out@ =~= texlab_path_spec(data_local_dir@, windows));
    }
    out
}

} // verus!
