//! The build of a raw firmware with an external ARM toolchain.

use vstd::prelude::*;
use crate::text::{cat, cat3, chars, same, slice_text, text, texts};

verus! {

/// Configuration for a raw firmware build.
pub struct RawBuildConfig {
    /// Target triple (e.g. "armv7m-none-eabi").
    pub target: String,
    /// Output format: "bin" or "hex".
    pub format: String,
    /// Whether to add the default startup code.
    pub include_startup: bool,
    /// Whether to add the default linker script.
    pub include_linker: bool,
}

impl Default for RawBuildConfig {
    /// A binary for ARMv7-M, with the default startup code and linker script.
    fn default() -> (r: Self)
        ensures
            r.target@ == "armv7m-none-eabi"@,
            r.format@ == "bin"@,
            r.include_startup,
            r.include_linker,
    {
        RawBuildConfig {
            target: text("armv7m-none-eabi"),
            format: text("bin"),
            include_startup: true,
            include_linker: true,
        }
    }
}

/// The path of the file `name` in the directory `dir`.
pub open spec fn in_dir(dir: Seq<char>, name: Seq<char>) -> Seq<char> {
    if dir.len() == 0 {
        name
    } else if dir.last() == '/' {
        dir + name
    } else {
        dir + "/"@ + name
    }
}

/// The path of the file `name` in the directory `dir`.
pub fn path_in(dir: &str, name: &str) -> (r: String)
    ensures
        r@ == in_dir(dir@, name@),
{
    let cs = chars(dir);
    if cs.len() == 0 {
        text(name)
    } else if cs[cs.len() - 1] == '/' {
        cat(dir, name)
    } else {
        cat3(dir, "/", name)
    }
}

/// The end of the last component among the first `n` characters of a path:
/// separators behind it, and components that are a single dot, do not count.
pub open spec fn name_end(p: Seq<char>, n: int) -> int
    decreases n,
{
    if n <= 0 || n > p.len() {
        0
    } else if p[n - 1] == '/' || (n >= 2 && p[n - 1] == '.' && p[n - 2] == '/') {
        name_end(p, n - 1)
    } else {
        n
    }
}

/// The start of the component that ends at `n`.
pub open spec fn name_start(p: Seq<char>, n: int) -> int
    decreases n,
{
    if n <= 0 || n > p.len() || p[n - 1] == '/' {
        n
    } else {
        name_start(p, n - 1)
    }
}

/// The position of the last dot in front of `n` and behind the character at
/// `from`, or the end `end` where there is none.
pub open spec fn dot_before(p: Seq<char>, from: int, n: int, end: int) -> int
    decreases n,
{
    if n <= from + 1 || n <= 0 || n > p.len() {
        end
    } else if p[n - 1] == '.' {
        n - 1
    } else {
        dot_before(p, from, n - 1, end)
    }
}

/// The path without the extension of its last component: up to the last dot of
/// the component, unless the component begins with its only dot. A path that
/// ends in no name stays as it is.
pub open spec fn without_extension(p: Seq<char>) -> Seq<char> {
    let end = name_end(p, p.len() as int);
    let start = name_start(p, end);
    let name = p.subrange(start, end);
    if name.len() == 0 || name == "."@ || name == ".."@ {
        p
    } else {
        p.take(dot_before(p, start, end, end))
    }
}

/// The path of the output without its extension.
pub fn output_stem(output_bin: &str) -> (r: String)
    ensures
        r@ == without_extension(output_bin@),
{
    let p: Vec<char> = chars(output_bin);
    let mut end: usize = p.len();
    while end > 0 && (p[end - 1] == '/' || (end >= 2 && p[end - 1] == '.' && p[end - 2] == '/'))
        invariant
            end <= p@.len(),
            name_end(p@, end as int) == name_end(p@, p@.len() as int),
        decreases end,
    {
        end = end - 1;
    }
    let mut start: usize = end;
    while start > 0 && p[start - 1] != '/'
        invariant
            start <= end <= p@.len(),
            name_start(p@, start as int) == name_start(p@, end as int),
        decreases start,
    {
        start = start - 1;
    }
    let name = slice_text(&p, start, end);
    if start == end || same(name.as_str(), ".") || same(name.as_str(), "..") {
        return text(output_bin);
    }
    let mut dot: usize = end;
    while dot > start + 1 && p[dot - 1] != '.'
        invariant
            start < dot <= end <= p@.len(),
            dot_before(p@, start as int, dot as int, end as int) == dot_before(
                p@,
                start as int,
                end as int,
                end as int,
            ),
        decreases dot,
    {
        dot = dot - 1;
    }
    let stop: usize = if dot > start + 1 {
        dot - 1
    } else {
        end
    };
    let r = slice_text(&p, 0, stop);
    assert(r@ =~= p@.take(stop as int));
    r
}

/// The commands that assemble the startup code, link it with the object file,
/// and copy the result to the binary.
pub open spec fn command_lines(obj: Seq<char>, bin: Seq<char>, dir: Seq<char>) -> Seq<Seq<char>> {
    let startup = in_dir(dir, "startup.o"@);
    let stem = without_extension(bin);
    seq![
        "arm-none-eabi-as -mcpu=cortex-m3 -mthumb -o "@ + startup + " "@ + in_dir(dir, "startup.s"@),
        "arm-none-eabi-ld -T "@ + in_dir(dir, "link.ld"@) + " -o "@ + stem + ".elf "@ + startup + " "@ + obj,
        "arm-none-eabi-objcopy -O binary "@ + stem + ".elf "@ + bin,
    ]
}

/// The commands that make a firmware binary out of the compiled object file.
pub fn build_commands(obj_path: &str, output_bin: &str, build_dir: &str) -> (r: Vec<String>)
    ensures
        texts(r@) == command_lines(obj_path@, output_bin@, build_dir@),
{
    let stem = output_stem(output_bin);
    let startup = path_in(build_dir, "startup.o");
    let source = path_in(build_dir, "startup.s");
    let linker = path_in(build_dir, "link.ld");
    let mut a = String::new();
    a.append("arm-none-eabi-as -mcpu=cortex-m3 -mthumb -o ");
    a.append(startup.as_str());
    a.append(" ");
    a.append(source.as_str());
    let mut l = String::new();
    l.append("arm-none-eabi-ld -T ");
    l.append(linker.as_str());
    l.append(" -o ");
    l.append(stem.as_str());
    l.append(".elf ");
    l.append(startup.as_str());
    l.append(" ");
    l.append(obj_path);
    let mut o = String::new();
    o.append("arm-none-eabi-objcopy -O binary ");
    o.append(stem.as_str());
    o.append(".elf ");
    o.append(output_bin);
    let r = vec![a, l, o];
    assert(texts(r@) =~= command_lines(obj_path@, output_bin@, build_dir@));
    r
}

} // verus!
