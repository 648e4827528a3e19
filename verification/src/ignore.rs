//! Which directories and files a scan passes over.

use vstd::prelude::*;
use vstd::string::*;

use crate::paths;
use crate::text;

verus! {

/// The names of the directories that hold no source code of the project.
pub open spec fn ignored_dir_name(name: Seq<char>) -> bool {
    ||| name == ".git"@
    ||| name == ".svn"@
    ||| name == ".hg"@
    ||| name == "target"@
    ||| name == "node_modules"@
    ||| name == ".next"@
    ||| name == ".nuxt"@
    ||| name == "dist"@
    ||| name == "build"@
    ||| name == "__pycache__"@
    ||| name == ".venv"@
    ||| name == "venv"@
}

/// A directory is passed over for its name alone.
pub open spec fn ignores_dir(path: Seq<char>) -> bool {
    match paths::file_name(path) {
        Some(name) => ignored_dir_name(name),
        None => false,
    }
}

/// Whether a scan passes over a directory.
pub fn should_ignore_dir(path: &str) -> (r: bool)
    ensures
        r == ignores_dir(path@),
{
    match paths::file_name_of(path) {
        Some(name) => {
            let n = name.as_str();
            text::same_text(n, ".git") || text::same_text(n, ".svn") || text::same_text(n, ".hg")
                || text::same_text(n, "target") || text::same_text(n, "node_modules")
                || text::same_text(n, ".next") || text::same_text(n, ".nuxt") || text::same_text(
                n,
                "dist",
            ) || text::same_text(n, "build") || text::same_text(n, "__pycache__")
                || text::same_text(n, ".venv") || text::same_text(n, "venv")
        },
        None => false,
    }
}

/// The extensions, in lower case, of programs, objects and libraries.
pub open spec fn binary_extension(ext: Seq<char>) -> bool {
    ||| ext == "exe"@
    ||| ext == "dll"@
    ||| ext == "so"@
    ||| ext == "dylib"@
    ||| ext == "o"@
    ||| ext == "a"@
    ||| ext == "lib"@
    ||| ext == "pyc"@
    ||| ext == "pyo"@
    ||| ext == "class"@
    ||| ext == "beam"@
    ||| ext == "lock"@
}

/// The extensions, in lower case, of pictures, sound and film.
pub open spec fn media_extension(ext: Seq<char>) -> bool {
    ||| ext == "png"@
    ||| ext == "jpg"@
    ||| ext == "jpeg"@
    ||| ext == "gif"@
    ||| ext == "bmp"@
    ||| ext == "ico"@
    ||| ext == "svg"@
    ||| ext == "webp"@
    ||| ext == "mp3"@
    ||| ext == "mp4"@
    ||| ext == "wav"@
    ||| ext == "avi"@
    ||| ext == "mov"@
}

/// The extensions, in lower case, of documents and archives.
pub open spec fn document_extension(ext: Seq<char>) -> bool {
    ||| ext == "pdf"@
    ||| ext == "doc"@
    ||| ext == "docx"@
    ||| ext == "xls"@
    ||| ext == "xlsx"@
    ||| ext == "ppt"@
    ||| ext == "pptx"@
    ||| ext == "zip"@
    ||| ext == "tar"@
    ||| ext == "gz"@
    ||| ext == "rar"@
    ||| ext == "7z"@
}

/// The extensions, in lower case, of files that hold no source code.
pub open spec fn ignored_extension(ext: Seq<char>) -> bool {
    binary_extension(ext) || media_extension(ext) || document_extension(ext)
}

fn is_ignored_extension(e: &str) -> (r: bool)
    ensures
        r == ignored_extension(e@),
{
    let binary = text::same_text(e, "exe") || text::same_text(e, "dll") || text::same_text(e, "so")
        || text::same_text(e, "dylib") || text::same_text(e, "o") || text::same_text(e, "a")
        || text::same_text(e, "lib") || text::same_text(e, "pyc") || text::same_text(e, "pyo")
        || text::same_text(e, "class") || text::same_text(e, "beam") || text::same_text(e, "lock");
    let media = text::same_text(e, "png") || text::same_text(e, "jpg") || text::same_text(e, "jpeg")
        || text::same_text(e, "gif") || text::same_text(e, "bmp") || text::same_text(e, "ico")
        || text::same_text(e, "svg") || text::same_text(e, "webp") || text::same_text(e, "mp3")
        || text::same_text(e, "mp4") || text::same_text(e, "wav") || text::same_text(e, "avi")
        || text::same_text(e, "mov");
    let document = text::same_text(e, "pdf") || text::same_text(e, "doc") || text::same_text(
        e,
        "docx",
    ) || text::same_text(e, "xls") || text::same_text(e, "xlsx") || text::same_text(e, "ppt")
        || text::same_text(e, "pptx") || text::same_text(e, "zip") || text::same_text(e, "tar")
        || text::same_text(e, "gz") || text::same_text(e, "rar") || text::same_text(e, "7z");
    binary || media || document
}

/// The names of single files that hold no source code.
pub open spec fn ignored_file_name(name: Seq<char>) -> bool {
    ||| name == ".DS_Store"@
    ||| name == "Thumbs.db"@
    ||| name == "Cargo.lock"@
    ||| name == "package-lock.json"@
    ||| name == "yarn.lock"@
    ||| name == "pnpm-lock.yaml"@
}

/// A file is passed over if it has no name, is hidden, or has a name or an extension of those
/// listed.
pub open spec fn ignores_file(path: Seq<char>) -> bool {
    match paths::file_name(path) {
        Some(name) => {
            ||| name.len() > 0 && name[0] == '.'
            ||| match paths::extension(path) {
                Some(ext) => ignored_extension(text::lowercase(ext)),
                None => false,
            }
            ||| ignored_file_name(name)
        },
        None => true,
    }
}

/// A file is passed over exactly if it is hidden, holds a program, a picture, sound, film, a document
/// or an archive by its extension, or has one of the names of files that tools write.
pub proof fn law_files_without_code_are_passed_over(path: Seq<char>, name: Seq<char>)
    requires
        paths::file_name(path) == Some(name),
    ensures
        name.len() > 0 && name[0] == '.' ==> ignores_file(path),
        name.len() > 0 && name[0] != '.' && paths::extension(path) is None ==> (ignores_file(path)
            <==> ({
            ||| name == ".DS_Store"@
            ||| name == "Thumbs.db"@
            ||| name == "Cargo.lock"@
            ||| name == "package-lock.json"@
            ||| name == "yarn.lock"@
            ||| name == "pnpm-lock.yaml"@
        })),
        name.len() > 0 && name[0] != '.' && paths::extension(path) is Some ==> (ignores_file(path)
            <==> ({
            let ext = text::lowercase(paths::extension(path)->0);
            ||| ext == "exe"@
            ||| ext == "dll"@
            ||| ext == "so"@
            ||| ext == "dylib"@
            ||| ext == "o"@
            ||| ext == "a"@
            ||| ext == "lib"@
            ||| ext == "pyc"@
            ||| ext == "pyo"@
            ||| ext == "class"@
            ||| ext == "beam"@
            ||| ext == "lock"@
            ||| ext == "png"@
            ||| ext == "jpg"@
            ||| ext == "jpeg"@
            ||| ext == "gif"@
            ||| ext == "bmp"@
            ||| ext == "ico"@
            ||| ext == "svg"@
            ||| ext == "webp"@
            ||| ext == "mp3"@
            ||| ext == "mp4"@
            ||| ext == "wav"@
            ||| ext == "avi"@
            ||| ext == "mov"@
            ||| ext == "pdf"@
            ||| ext == "doc"@
            ||| ext == "docx"@
            ||| ext == "xls"@
            ||| ext == "xlsx"@
            ||| ext == "ppt"@
            ||| ext == "pptx"@
            ||| ext == "zip"@
            ||| ext == "tar"@
            ||| ext == "gz"@
            ||| ext == "rar"@
            ||| ext == "7z"@
            ||| name == ".DS_Store"@
            ||| name == "Thumbs.db"@
            ||| name == "Cargo.lock"@
            ||| name == "package-lock.json"@
            ||| name == "yarn.lock"@
            ||| name == "pnpm-lock.yaml"@
        })),
{
}

/// A directory is passed over exactly if it has one of the names of directories that hold what
/// version control, builds and packages leave.
pub proof fn law_directories_without_code_are_passed_over(path: Seq<char>, name: Seq<char>)
    requires
        paths::file_name(path) == Some(name),
    ensures
        ignores_dir(path) <==> ({
            ||| name == ".git"@
            ||| name == ".svn"@
            ||| name == ".hg"@
            ||| name == "target"@
            ||| name == "node_modules"@
            ||| name == ".next"@
            ||| name == ".nuxt"@
            ||| name == "dist"@
            ||| name == "build"@
            ||| name == "__pycache__"@
            ||| name == ".venv"@
            ||| name == "venv"@
        }),
{
}

/// Whether a scan passes over a file.
pub fn should_ignore_file(path: &str) -> (r: bool)
    ensures
        r == ignores_file(path@),
{
    let name = match paths::file_name_of(path) {
        Some(name) => name,
        None => {
            return true;
        },
    };
    let chars = text::chars_of(name.as_str());
    if chars.len() > 0 && chars[0] == '.' {
        return true;
    }
    if let Some(ext) = paths::extension_of(path) {
        let lower = text::to_lowercase(ext.as_str());
        if is_ignored_extension(lower.as_str()) {
            return true;
        }
    }
    let n = name.as_str();
    text::same_text(n, ".DS_Store") || text::same_text(n, "Thumbs.db") || text::same_text(
        n,
        "Cargo.lock",
    ) || text::same_text(n, "package-lock.json") || text::same_text(n, "yarn.lock")
        || text::same_text(n, "pnpm-lock.yaml")
}

} // verus!
