//! The text handed to the image provider.
use vstd::prelude::*;
use crate::number::push_decimal;
use crate::path::{extension_spec, file_name, file_name_spec, extension};
use crate::shell::{shell_quote, shell_quote_spec};
use crate::text::{ascii_upper_seq, decimal, uppercase_ascii};

verus! {

/// The name of the deliverable as the instruction shows it: the path's
/// file name, or the whole path when it has none.
pub open spec fn target_name(out: Seq<char>) -> Seq<char> {
    match file_name_spec(out) {
        Some(n) => n,
        None => out,
    }
}

/// The image format of the deliverable: its extension in upper case, `PNG`
/// when it has none.
pub open spec fn target_format(out: Seq<char>) -> Seq<char> {
    match extension_spec(out) {
        Some(e) => ascii_upper_seq(e),
        None => "PNG"@,
    }
}

/// The lines that name the asset kind and the deliverable.
pub open spec fn header_lines(kind: Seq<char>, out: Seq<char>) -> Seq<char> {
    "Generate a production-ready 2D game asset.\n"@ + ("Asset kind: "@ + kind + ".\n"@) + (
    "Output target: the final deliverable is `"@ + target_name(out) + "`, a "@ + target_format(out)
        + " image. Compose for this exact format and aspect.\n"@)
}

pub open spec fn size_lines(size: Option<(u32, u32)>) -> Seq<char> {
    match size {
        Some((w, h)) => "Requested canvas: "@ + decimal(w as nat) + "x"@ + decimal(h as nat) + ".\n"@,
        None => Seq::<char>::empty(),
    }
}

pub open spec fn style_lines(style: Option<Seq<char>>) -> Seq<char> {
    match style {
        Some(st) => "Style constraints:\n"@ + st + "\n"@,
        None => Seq::<char>::empty(),
    }
}

pub open spec fn green_lines(green: bool, key: Seq<char>) -> Seq<char> {
    if green {
        "Green-screen constraint: isolate exactly one asset on a flat pure "@ + key
            + " background. No gradients, no cast shadows, no scene background, no extra UI elements.\n"@
    } else {
        Seq::<char>::empty()
    }
}

/// Everything between the `$imagegen` keyword and the user's brief.
pub open spec fn instruction_body(
    kind: Seq<char>,
    style: Option<Seq<char>>,
    size: Option<(u32, u32)>,
    green: bool,
    key: Seq<char>,
    out: Seq<char>,
) -> Seq<char> {
    header_lines(kind, out) + size_lines(size) + style_lines(style) + green_lines(green, key)
        + "User brief:\n"@
}

/// The instruction for one generated asset.
pub open spec fn instruction_spec(
    kind: Seq<char>,
    prompt: Seq<char>,
    style: Option<Seq<char>>,
    size: Option<(u32, u32)>,
    green: bool,
    key: Seq<char>,
    out: Seq<char>,
) -> Seq<char> {
    "$imagegen\n"@ + instruction_body(kind, style, size, green, key, out) + prompt
}

pub open spec fn opt_view(o: Option<&str>) -> Option<Seq<char>> {
    match o {
        Some(s) => Some(s@),
        None => None,
    }
}

fn push_header(s: &mut String, kind: &str, out: &str)
    ensures
        final(s)@ == old(s)@ + header_lines(kind@, out@),
{
    let ghost s0 = s@;
    s.append("Generate a production-ready 2D game asset.\n");
    let ghost s1 = s@;
    let mut line = String::from_str("Asset kind: ");
    line.append(kind);
    line.append(".\n");
    s.append(line.as_str());
    let ghost s2 = s@;
    let out_name = match file_name(out) {
        Some(n) => n,
        None => out,
    };
    let fmt = match extension(out) {
        Some(e) => uppercase_ascii(e),
        None => String::from_str("PNG"),
    };
    let mut target = String::from_str("Output target: the final deliverable is `");
    target.append(out_name);
    target.append("`, a ");
    target.append(fmt.as_str());
    target.append(" image. Compose for this exact format and aspect.\n");
    s.append(target.as_str());
    assert(s@ =~= s0 + header_lines(kind@, out@));
}

fn push_size(s: &mut String, size: Option<(u32, u32)>)
    ensures
        final(s)@ == old(s)@ + size_lines(size),
{
    if let Some((w, h)) = size {
        let mut line = String::from_str("Requested canvas: ");
        push_decimal(&mut line, w as u64);
        line.append("x");
        push_decimal(&mut line, h as u64);
        line.append(".\n");
        s.append(line.as_str());
    } else {
        assert(s@ =~= s@ + Seq::<char>::empty());
    }
}

fn push_style(s: &mut String, style: Option<&str>)
    ensures
        final(s)@ == old(s)@ + style_lines(opt_view(style)),
{
    if let Some(st) = style {
        let mut line = String::from_str("Style constraints:\n");
        line.append(st);
        line.append("\n");
        s.append(line.as_str());
    } else {
        assert(s@ =~= s@ + Seq::<char>::empty());
    }
}

fn push_green(s: &mut String, green: bool, key: &str)
    ensures
        final(s)@ == old(s)@ + green_lines(green, key@),
{
    if green {
        let mut line = String::from_str("Green-screen constraint: isolate exactly one asset on a flat pure ");
        line.append(key);
        line.append(
            " background. No gradients, no cast shadows, no scene background, no extra UI elements.\n",
        );
        s.append(line.as_str());
    } else {
        assert(s@ =~= s@ + Seq::<char>::empty());
    }
}

/// Builds the instruction that asks the provider for one production-ready
/// 2D game asset: it always opens with the `$imagegen` keyword, names the
/// kind, the deliverable and its format, the optional canvas, style and
/// green-screen constraints, and ends with the user's brief.
pub fn image_instruction(
    kind: &str,
    prompt: &str,
    style: Option<&str>,
    size: Option<(u32, u32)>,
    green: bool,
    key: &str,
    out: &str,
) -> (r: String)
    ensures
        r@ == instruction_spec(kind@, prompt@, opt_view(style), size, green, key@, out@),
{
    let mut body = String::new();
    push_header(&mut body, kind, out);
    push_size(&mut body, size);
    push_style(&mut body, style);
    push_green(&mut body, green, key);
    body.append("User brief:\n");
    assert(body@ =~= instruction_body(kind@, opt_view(style), size, green, key@, out@));
    let mut s = String::from_str("$imagegen\n");
    s.append(body.as_str());
    s.append(prompt);
    s
}

/// Every instruction opens with the `$imagegen` keyword that makes the
/// provider use its image tool, and ends with the user's brief verbatim.
pub proof fn law_instruction_frame(
    kind: Seq<char>,
    prompt: Seq<char>,
    style: Option<Seq<char>>,
    size: Option<(u32, u32)>,
    green: bool,
    key: Seq<char>,
    out: Seq<char>,
)
    ensures
        ({
            let i = instruction_spec(kind, prompt, style, size, green, key, out);
            &&& i.len() >= "$imagegen\n"@.len() + prompt.len()
            &&& i.take("$imagegen\n"@.len() as int) == "$imagegen\n"@
            &&& i.skip(i.len() - prompt.len()) == prompt
        }),
{
    let i = instruction_spec(kind, prompt, style, size, green, key, out);
    let a = "$imagegen\n"@;
    let b = instruction_body(kind, style, size, green, key, out);
    assert(i == a + b + prompt);
    assert(i.take(a.len() as int) =~= a);
    assert(i.skip(i.len() - prompt.len()) =~= prompt);
}

/// The working-file rules appended to an instruction before it is handed
/// to the provider.
pub open spec fn final_instruction_spec(instruction: Seq<char>) -> Seq<char> {
    instruction
        + "\n\nGenerate the image for THIS request now with your image generation tool, then save it to `./asset.png` in the current working directory.\n- If image generation fails, exit with a non-zero status."@
}

pub fn codex_final_instruction(instruction: &str) -> (r: String)
    ensures
        r@ == final_instruction_spec(instruction@),
{
    let mut s = String::from_str(instruction);
    s.append(
        "\n\nGenerate the image for THIS request now with your image generation tool, then save it to `./asset.png` in the current working directory.\n- If image generation fails, exit with a non-zero status.",
    );
    s
}

pub open spec fn quoted_with_space(s: Seq<char>) -> Seq<char> {
    " "@ + shell_quote_spec(s)
}

/// The arguments after the instruction: `--image <ref>` for each reference.
pub open spec fn refs_display(refs: Seq<Seq<char>>) -> Seq<char>
    decreases refs.len(),
{
    if refs.len() == 0 {
        Seq::<char>::empty()
    } else {
        refs_display(refs.drop_last()) + " --image"@ + quoted_with_space(refs.last())
    }
}

pub open spec fn string_views(v: Seq<String>) -> Seq<Seq<char>> {
    v.map_values(|s: String| s@)
}

/// The provider's configuration override that sets its reasoning effort.
pub open spec fn effort_setting_spec(effort: Seq<char>) -> Seq<char> {
    "model_reasoning_effort="@ + effort
}

/// The `-c` argument that sets the provider's reasoning effort.
pub fn reasoning_effort_setting(effort: &str) -> (r: String)
    ensures
        r@ == effort_setting_spec(effort@),
{
    let mut s = String::from_str("model_reasoning_effort=");
    s.append(effort);
    s
}

/// The provider invocation as verbose mode prints it, with the instruction
/// shown as a placeholder and each argument shell-quoted.
pub open spec fn command_display_spec(
    bin: Seq<char>,
    sandbox: Seq<char>,
    workdir: Seq<char>,
    effort: Seq<char>,
    model: Option<Seq<char>>,
    refs: Seq<Seq<char>>,
) -> Seq<char> {
    shell_quote_spec(bin) + " exec --skip-git-repo-check --sandbox"@ + quoted_with_space(sandbox) + " -C"@
        + quoted_with_space(workdir) + " -c"@ + quoted_with_space(effort_setting_spec(effort)) + match model {
        Some(m) => " --model"@ + quoted_with_space(m),
        None => Seq::<char>::empty(),
    } + " '<instruction shown above>'"@ + refs_display(refs)
}

pub fn codex_command_display(
    bin: &str,
    sandbox: &str,
    workdir: &str,
    effort: &str,
    model: Option<&str>,
    refs: &Vec<String>,
) -> (r: String)
    ensures
        r@ == command_display_spec(bin@, sandbox@, workdir@, effort@, opt_view(model), string_views(refs@)),
{
    let q = shell_quote(bin);
    let mut s = String::from_str(q.as_str());
    s.append(" exec --skip-git-repo-check --sandbox");
    s.append(" ");
    let q = shell_quote(sandbox);
    s.append(q.as_str());
    s.append(" -C");
    s.append(" ");
    let q = shell_quote(workdir);
    s.append(q.as_str());
    s.append(" -c");
    s.append(" ");
    let e = reasoning_effort_setting(effort);
    let q = shell_quote(e.as_str());
    s.append(q.as_str());
    if let Some(m) = model {
        s.append(" --model");
        s.append(" ");
        let q = shell_quote(m);
        s.append(q.as_str());
    }
    s.append(" '<instruction shown above>'");
    let ghost head = s@;
    let mut i: usize = 0;
    assert(string_views(refs@).take(0) =~= Seq::<Seq<char>>::empty());
    assert(head =~= head + refs_display(Seq::<Seq<char>>::empty()));
    while i < refs.len()
        invariant
            i <= refs@.len(),
            s@ == head + refs_display(string_views(refs@).take(i as int)),
        decreases refs@.len() - i,
    {
        s.append(" --image");
        s.append(" ");
        let q = shell_quote(refs[i].as_str());
        s.append(q.as_str());
        assert(string_views(refs@).take(i + 1).drop_last() =~= string_views(refs@).take(i as int));
        assert(string_views(refs@).take(i + 1).last() == refs@[i as int]@);
        assert(s@ =~= head + refs_display(string_views(refs@).take(i + 1)));
        i = i + 1;
    }
    assert(string_views(refs@).take(refs@.len() as int) =~= string_views(refs@));
    assert(s@ =~= command_display_spec(bin@, sandbox@, workdir@, effort@, opt_view(model), string_views(refs@)));
    s
}

} // verus!
