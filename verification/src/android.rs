//! What the Android side of a project must look like: where its build
//! file lies, what the file must mention, and which package names are
//! accepted.

use crate::text::{chars_of, contains_text, is_digit, is_lower, occurs_in};
use vstd::prelude::*;
use vstd::string::StringExecFns;

verus! {

/// `part` below the directory `base`: `part` alone where `base` is empty,
/// else the two with one `/` between them.
pub open spec fn joined_path(base: Seq<char>, part: Seq<char>) -> Seq<char> {
    if base.len() == 0 {
        part
    } else if base.last() == '/' {
        base + part
    } else {
        base + "/"@ + part
    }
}

/// The path of `part` below the directory `base`.
pub fn join_path(base: &str, part: &str) -> (out: String)
    ensures
        out@ == joined_path(base@, part@),
{
    let chars = chars_of(base);
    if chars.len() == 0 {
        return String::from_str(part);
    }
    let mut out = String::from_str(base);
    if chars[chars.len() - 1] != '/' {
        out.append("/");
    }
    out.append(part);
    out
}

/// The path of the build file of the project's Android side.
pub open spec fn gradle_path_of(project_root: Seq<char>) -> Seq<char> {
    joined_path(joined_path(project_root, "android"@), "build.gradle"@)
}

/// The path of the build file of the project's Android side.
pub fn build_gradle_path(project_root: &str) -> (out: String)
    ensures
        out@ == gradle_path_of(project_root@),
{
    let android = join_path(project_root, "android");
    join_path(android.as_str(), "build.gradle")
}

/// The build file mentions everything that a native build needs.
pub open spec fn gradle_configured(content: Seq<char>) -> bool {
    &&& occurs_in(content, "externalNativeBuild"@)
    &&& occurs_in(content, "cmake"@)
    &&& occurs_in(content, "CMakeLists.txt"@)
}

/// Whether a build file with this content is set up for a native build.
pub fn is_gradle_configured(content: &str) -> (b: bool)
    ensures
        b == gradle_configured(content@),
{
    let mut passed = true;
    passed = passed && contains_text(content, "externalNativeBuild");
    passed = passed && contains_text(content, "cmake");
    passed = passed && contains_text(content, "CMakeLists.txt");
    passed
}

/// A character that may stand inside a segment of a package name.
pub open spec fn is_segment_char(c: char) -> bool {
    is_lower(c) || is_digit(c) || c == '_'
}

/// What stands at place `i` of a package name is allowed there: at the
/// start of a segment a lower-case letter; elsewhere a character of a
/// segment or the dot that ends it.
pub open spec fn place_ok(name: Seq<char>, i: int) -> bool {
    if i == 0 || name[i - 1] == '.' {
        is_lower(name[i])
    } else {
        is_segment_char(name[i]) || name[i] == '.'
    }
}

/// A package name: segments separated by dots, each a lower-case letter
/// followed by lower-case letters, digits and underscores.
pub open spec fn valid_package_name(name: Seq<char>) -> bool {
    &&& name.len() > 0
    &&& name.last() != '.'
    &&& forall|i: int| 0 <= i < name.len() ==> #[trigger] place_ok(name, i)
}

/// Whether `package_name` is accepted as the name of an Android package.
pub fn is_valid_android_package_name(package_name: &str) -> (b: bool)
    ensures
        b == valid_package_name(package_name@),
{
    let chars = chars_of(package_name);
    let n = chars.len();
    if n == 0 || chars[n - 1] == '.' {
        return false;
    }
    let mut i: usize = 0;
    while i < n
        invariant
            i <= n,
            n == chars.len(),
            chars@ == package_name@,
            forall|k: int| 0 <= k < i ==> #[trigger] place_ok(chars@, k),
        decreases n - i,
    {
        let c = chars[i];
        let lower = 'a' <= c && c <= 'z';
        let ok = if i == 0 || chars[i - 1] == '.' {
            lower
        } else {
            lower || ('0' <= c && c <= '9') || c == '_' || c == '.'
        };
        assert(ok == place_ok(chars@, i as int));
        if !ok {
            return false;
        }
        i += 1;
    }
    true
}

} // verus!
