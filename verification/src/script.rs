//! Deterministic rendering of the submission script from normalized values.
//!
//! The template has a fixed shape: the shebang line, four `#SBATCH`
//! directives around the job name, memory, time and the two output paths, a
//! shell-options line, a blank line, and the command, with a trailing
//! newline. Every placeholder is substituted exactly once. When the memory
//! value is the sentinel `"0"` the memory directive line is omitted
//! entirely — not blanked — and every other line keeps its place.

use vstd::prelude::*;

verus! {

/// The shell-options line: empty options give an empty line, anything else
/// a `set -<opts>` line.
pub open spec fn set_line(set: Seq<char>) -> Seq<char> {
    if set.len() == 0 {
        Seq::<char>::empty()
    } else {
        "set -"@ + set
    }
}

/// The text that introduces the memory directive line.
pub open spec fn mem_directive() -> Seq<char> {
    "#SBATCH --mem="@
}

/// The full script text for the given field values.
pub open spec fn script_text(
    shebang: Seq<char>,
    set: Seq<char>,
    name: Seq<char>,
    memory: Seq<char>,
    time: Seq<char>,
    error: Seq<char>,
    output: Seq<char>,
    cmd: Seq<char>,
) -> Seq<char> {
    shebang + seq!['\n'] + "#SBATCH --job-name="@ + name + seq!['\n'] + (if memory == seq!['0'] {
        Seq::<char>::empty()
    } else {
        "#SBATCH --mem="@ + memory + seq!['\n']
    }) + "#SBATCH --time="@ + time + seq!['\n'] + "#SBATCH --error="@ + error + seq!['\n']
        + "#SBATCH --output="@ + output + seq!['\n'] + set_line(set) + seq!['\n'] + seq!['\n']
        + cmd + seq!['\n']
}

/// Renders the submission script.
///
/// Substitutes every field into the fixed template; when `memory` is the
/// sentinel `"0"` the memory directive line is left out entirely, and the
/// caller is expected to tell the user that the cluster default applies.
pub fn make_submission_script(
    shebang: &str,
    set: &str,
    name: &str,
    memory: &str,
    time: &str,
    error: &str,
    output: &str,
    cmd: &str,
) -> (script: String)
    ensures
        script@ == script_text(shebang@, set@, name@, memory@, time@, error@, output@, cmd@),
{
    let mut out = String::new();
    out.append(shebang);
    out.append("\n");
    out.append("#SBATCH --job-name=");
    out.append(name);
    out.append("\n");
    let mem_is_zero = memory.unicode_len() == 1 && memory.get_char(0) == '0';
    proof {
        if mem_is_zero {
            assert(memory@ =~= seq!['0']);
        }
    }
    if !mem_is_zero {
        out.append("#SBATCH --mem=");
        out.append(memory);
        out.append("\n");
    }
    out.append("#SBATCH --time=");
    out.append(time);
    out.append("\n");
    out.append("#SBATCH --error=");
    out.append(error);
    out.append("\n");
    out.append("#SBATCH --output=");
    out.append(output);
    out.append("\n");
    if set.unicode_len() > 0 {
        out.append("set -");
        out.append(set);
    }
    out.append("\n");
    out.append("\n");
    out.append(cmd);
    out.append("\n");
    proof {
        reveal_strlit("\n");
        assert(out@ =~= script_text(
            shebang@,
            set@,
            name@,
            memory@,
            time@,
            error@,
            output@,
            cmd@,
        ));
    }
    out
}

/// The lines of a text, split at `'\n'`: `n` newlines give `n + 1` lines,
/// so a trailing newline yields a final empty line.
pub open spec fn line_split(s: Seq<char>) -> Seq<Seq<char>>
    decreases s.len(),
{
    if s.len() == 0 {
        seq![Seq::<char>::empty()]
    } else if s[0] == '\n' {
        seq![Seq::<char>::empty()] + line_split(s.drop_first())
    } else {
        let r = line_split(s.drop_first());
        seq![seq![s[0]] + r[0]] + r.skip(1)
    }
}

pub proof fn lemma_line_split_len(s: Seq<char>)
    ensures
        line_split(s).len() >= 1,
    decreases s.len(),
{
    if s.len() > 0 {
        lemma_line_split_len(s.drop_first());
    }
}

/// Splitting one newline-free line off the front.
pub proof fn lemma_line_split_head(a: Seq<char>, b: Seq<char>)
    requires
        forall|i: int| 0 <= i < a.len() ==> a[i] != '\n',
    ensures
        line_split(a + seq!['\n'] + b) == seq![a] + line_split(b),
    decreases a.len(),
{
    let s = a + seq!['\n'] + b;
    if a.len() == 0 {
        assert(s =~= seq!['\n'] + b);
        assert(s[0] == '\n');
        assert(s.drop_first() =~= b);
        assert(a =~= Seq::<char>::empty());
        assert(line_split(s) =~= seq![a] + line_split(b));
    } else {
        assert(s[0] == a[0]);
        assert(s.drop_first() =~= a.drop_first() + seq!['\n'] + b);
        lemma_line_split_head(a.drop_first(), b);
        lemma_line_split_len(b);
        let r = line_split(s.drop_first());
        assert(r == seq![a.drop_first()] + line_split(b));
        assert(r[0] == a.drop_first());
        assert(seq![s[0]] + r[0] =~= a);
        assert(r.skip(1) =~= line_split(b));
        assert(line_split(s) =~= seq![a] + line_split(b));
    }
}

/// Whether a line begins with the given text.
pub open spec fn line_starts_with(s: Seq<char>, p: Seq<char>) -> bool {
    s.len() >= p.len() && s.take(p.len() as int) == p
}

/// The lines that `script_text` produces, one seq entry per line.
pub open spec fn script_lines(
    shebang: Seq<char>,
    set: Seq<char>,
    name: Seq<char>,
    memory: Seq<char>,
    time: Seq<char>,
    error: Seq<char>,
    output: Seq<char>,
    cmd: Seq<char>,
) -> Seq<Seq<char>> {
    seq![shebang, "#SBATCH --job-name="@ + name] + (if memory == seq!['0'] {
        Seq::<Seq<char>>::empty()
    } else {
        seq![mem_directive() + memory]
    }) + seq![
        "#SBATCH --time="@ + time,
        "#SBATCH --error="@ + error,
        "#SBATCH --output="@ + output,
        set_line(set),
        Seq::<char>::empty(),
        cmd,
        Seq::<char>::empty(),
    ]
}

/// With newline-free fields, the script splits into exactly the template's
/// lines.
#[verifier::rlimit(100)]
pub proof fn lemma_script_lines(
    shebang: Seq<char>,
    set: Seq<char>,
    name: Seq<char>,
    memory: Seq<char>,
    time: Seq<char>,
    error: Seq<char>,
    output: Seq<char>,
    cmd: Seq<char>,
)
    requires
        forall|i: int| 0 <= i < shebang.len() ==> shebang[i] != '\n',
        forall|i: int| 0 <= i < set.len() ==> set[i] != '\n',
        forall|i: int| 0 <= i < name.len() ==> name[i] != '\n',
        forall|i: int| 0 <= i < memory.len() ==> memory[i] != '\n',
        forall|i: int| 0 <= i < time.len() ==> time[i] != '\n',
        forall|i: int| 0 <= i < error.len() ==> error[i] != '\n',
        forall|i: int| 0 <= i < output.len() ==> output[i] != '\n',
        forall|i: int| 0 <= i < cmd.len() ==> cmd[i] != '\n',
    ensures
        line_split(script_text(shebang, set, name, memory, time, error, output, cmd))
            == script_lines(shebang, set, name, memory, time, error, output, cmd),
{
    let nl = seq!['\n'];
    let l1 = "#SBATCH --job-name="@ + name;
    let l2 = mem_directive() + memory;
    let l3 = "#SBATCH --time="@ + time;
    let l4 = "#SBATCH --error="@ + error;
    let l5 = "#SBATCH --output="@ + output;
    let l6 = set_line(set);
    let l7 = Seq::<char>::empty();
    let l8 = cmd;
    assert(forall|i: int| 0 <= i < l1.len() ==> l1[i] != '\n') by {
        reveal_strlit("#SBATCH --job-name=");
    }
    assert(forall|i: int| 0 <= i < l2.len() ==> l2[i] != '\n') by {
        reveal_strlit("#SBATCH --mem=");
    }
    assert(forall|i: int| 0 <= i < l3.len() ==> l3[i] != '\n') by {
        reveal_strlit("#SBATCH --time=");
    }
    assert(forall|i: int| 0 <= i < l4.len() ==> l4[i] != '\n') by {
        reveal_strlit("#SBATCH --error=");
    }
    assert(forall|i: int| 0 <= i < l5.len() ==> l5[i] != '\n') by {
        reveal_strlit("#SBATCH --output=");
    }
    assert(forall|i: int| 0 <= i < l6.len() ==> l6[i] != '\n') by {
        reveal_strlit("set -");
    }
    let r9 = Seq::<char>::empty();
    let r8 = l8 + nl + r9;
    let r7 = l7 + nl + r8;
    let r6 = l6 + nl + r7;
    let r5 = l5 + nl + r6;
    let r4 = l4 + nl + r5;
    let r3 = l3 + nl + r4;
    let r2 = if memory == seq!['0'] {
        r3
    } else {
        l2 + nl + r3
    };
    let r1 = l1 + nl + r2;
    let r0 = shebang + nl + r1;
    assert(script_text(shebang, set, name, memory, time, error, output, cmd) =~= r0);
    assert(line_split(r9) == seq![Seq::<char>::empty()]);
    assert(r8 =~= l8 + nl);
    lemma_line_split_head(l8, r9);
    assert(line_split(r8) =~= seq![l8, Seq::<char>::empty()]);
    lemma_line_split_head(l7, r8);
    assert(line_split(r7) =~= seq![l7] + line_split(r8));
    lemma_line_split_head(l6, r7);
    lemma_line_split_head(l5, r6);
    lemma_line_split_head(l4, r5);
    lemma_line_split_head(l3, r4);
    if memory != seq!['0'] {
        lemma_line_split_head(l2, r3);
    }
    lemma_line_split_head(l1, r2);
    lemma_line_split_head(shebang, r1);
    assert(line_split(r0) =~= script_lines(shebang, set, name, memory, time, error, output, cmd));
}

/// Render law. With newline-free fields, and a shebang and command that do
/// not themselves open with the memory directive: a non-sentinel memory
/// value gives a script with exactly one line starting with the memory
/// directive; the sentinel `"0"` gives one with none, one line fewer in
/// total, and every other line identical and in the same order.
pub proof fn lemma_render_memory_line(
    shebang: Seq<char>,
    set: Seq<char>,
    name: Seq<char>,
    memory: Seq<char>,
    time: Seq<char>,
    error: Seq<char>,
    output: Seq<char>,
    cmd: Seq<char>,
)
    requires
        memory != seq!['0'],
        forall|i: int| 0 <= i < shebang.len() ==> shebang[i] != '\n',
        forall|i: int| 0 <= i < set.len() ==> set[i] != '\n',
        forall|i: int| 0 <= i < name.len() ==> name[i] != '\n',
        forall|i: int| 0 <= i < memory.len() ==> memory[i] != '\n',
        forall|i: int| 0 <= i < time.len() ==> time[i] != '\n',
        forall|i: int| 0 <= i < error.len() ==> error[i] != '\n',
        forall|i: int| 0 <= i < output.len() ==> output[i] != '\n',
        forall|i: int| 0 <= i < cmd.len() ==> cmd[i] != '\n',
        !line_starts_with(shebang, mem_directive()),
        !line_starts_with(cmd, mem_directive()),
    ensures
        ({
            let with_mem = line_split(
                script_text(shebang, set, name, memory, time, error, output, cmd),
            );
            let without = line_split(
                script_text(shebang, set, name, seq!['0'], time, error, output, cmd),
            );
            &&& with_mem.len() == 10
            &&& without.len() == 9
            &&& without == with_mem.take(2) + with_mem.skip(3)
            &&& line_starts_with(with_mem[2], mem_directive())
            &&& forall|i: int|
                0 <= i < with_mem.len() && i != 2 ==> !line_starts_with(
                    #[trigger] with_mem[i],
                    mem_directive(),
                )
            &&& forall|i: int|
                0 <= i < without.len() ==> !line_starts_with(#[trigger] without[i], mem_directive())
        }),
{
    lemma_script_lines(shebang, set, name, memory, time, error, output, cmd);
    assert(forall|i: int| 0 <= i < seq!['0'].len() ==> seq!['0'][i] != '\n');
    lemma_script_lines(shebang, set, name, seq!['0'], time, error, output, cmd);
    let with_mem = line_split(script_text(shebang, set, name, memory, time, error, output, cmd));
    let without = line_split(script_text(shebang, set, name, seq!['0'], time, error, output, cmd));
    reveal_strlit("#SBATCH --job-name=");
    reveal_strlit("#SBATCH --mem=");
    reveal_strlit("#SBATCH --time=");
    reveal_strlit("#SBATCH --error=");
    reveal_strlit("#SBATCH --output=");
    reveal_strlit("set -");
    assert(without =~= with_mem.take(2) + with_mem.skip(3));
    assert((mem_directive() + memory).take(mem_directive().len() as int) =~= mem_directive());
    let dir = mem_directive();
    assert(!line_starts_with("#SBATCH --job-name="@ + name, dir)) by {
        if line_starts_with("#SBATCH --job-name="@ + name, dir) {
            assert(("#SBATCH --job-name="@ + name).take(dir.len() as int)[10] == dir[10]);
        }
    }
    assert(!line_starts_with("#SBATCH --time="@ + time, dir)) by {
        if line_starts_with("#SBATCH --time="@ + time, dir) {
            assert(("#SBATCH --time="@ + time).take(dir.len() as int)[10] == dir[10]);
        }
    }
    assert(!line_starts_with("#SBATCH --error="@ + error, dir)) by {
        if line_starts_with("#SBATCH --error="@ + error, dir) {
            assert(("#SBATCH --error="@ + error).take(dir.len() as int)[10] == dir[10]);
        }
    }
    assert(!line_starts_with("#SBATCH --output="@ + output, dir)) by {
        if line_starts_with("#SBATCH --output="@ + output, dir) {
            assert(("#SBATCH --output="@ + output).take(dir.len() as int)[10] == dir[10]);
        }
    }
    assert(!line_starts_with(set_line(set), dir)) by {
        if set.len() == 0 {
            assert(set_line(set).len() < dir.len());
        } else {
            if line_starts_with(set_line(set), dir) {
                assert(("set -"@ + set).take(dir.len() as int)[0] == dir[0]);
            }
        }
    }
    assert(!line_starts_with(Seq::<char>::empty(), dir));
}

} // verus!
