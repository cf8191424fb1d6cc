use vstd::prelude::*;

use crate::instruction_generator::{
    encode,
    generate_instruction,
    EncodeError,
    Instruction,
    Parameter,
    Register,
};
use crate::lexer::{
    chars_of,
    is_blank,
    lemma_pieces_len,
    numeral,
    parse_numeral,
    pieces,
    separates,
    split,
    views,
    Separator,
};
use vstd::slice::slice_subrange;

verus! {

/// The numeric fields of operands.
#[derive(Clone, Copy, Debug, PartialEq, Eq, Structural)]
pub enum Field {
    Register,
    Address,
    Byte,
    Nibble,
}

/// Why a line cannot be assembled.
#[derive(Clone, Copy, Debug, PartialEq, Eq, Structural)]
pub enum LineError {
    /// The first word is not an instruction name.
    UnknownInstruction,
    /// An operand has none of the operand forms.
    UnknownParameter,
    /// The numeral of an operand is not a decimal number.
    BadNumber(Field),
    /// The number of an operand does not fit its field.
    OutOfRange(Field),
    /// The operands do not fit the instruction.
    Encode(EncodeError),
}

/// The first error of a source text, with its line number, counted from 1.
#[derive(Clone, Copy, Debug, PartialEq, Eq, Structural)]
pub struct AssembleError {
    pub line: usize,
    pub error: LineError,
}

/// The instruction that a word names.
pub open spec fn mnemonic(w: Seq<char>) -> Option<Instruction> {
    if w == "CLS"@ {
        Some(Instruction::Cls)
    } else if w == "RET"@ {
        Some(Instruction::Ret)
    } else if w == "JMP"@ {
        Some(Instruction::Jmp)
    } else if w == "CALL"@ {
        Some(Instruction::Call)
    } else if w == "SEQ"@ {
        Some(Instruction::Se)
    } else if w == "SNE"@ {
        Some(Instruction::Sne)
    } else if w == "LD"@ {
        Some(Instruction::Ld)
    } else if w == "ADD"@ {
        Some(Instruction::Add)
    } else if w == "OR"@ {
        Some(Instruction::Or)
    } else if w == "AND"@ {
        Some(Instruction::And)
    } else if w == "XOR"@ {
        Some(Instruction::Xor)
    } else if w == "SUB"@ {
        Some(Instruction::Sub)
    } else if w == "SHR"@ {
        Some(Instruction::Shr)
    } else if w == "SUBN"@ {
        Some(Instruction::Subn)
    } else if w == "SHL"@ {
        Some(Instruction::Shl)
    } else if w == "JMPO"@ {
        Some(Instruction::Jmpo)
    } else if w == "RND"@ {
        Some(Instruction::Rnd)
    } else if w == "DRW"@ {
        Some(Instruction::Drw)
    } else if w == "SKP"@ {
        Some(Instruction::Skp)
    } else if w == "SKNP"@ {
        Some(Instruction::Sknp)
    } else if w == "LDK"@ {
        Some(Instruction::Ldk)
    } else if w == "SPR"@ {
        Some(Instruction::Spr)
    } else if w == "BCD"@ {
        Some(Instruction::Bcd)
    } else if w == "STN"@ {
        Some(Instruction::Stn)
    } else if w == "LDN"@ {
        Some(Instruction::Ldn)
    } else {
        None
    }
}

/// The first value that does not fit a field.
pub open spec fn limit(f: Field) -> nat {
    match f {
        Field::Register => 16,
        Field::Address => 4096,
        Field::Byte => 256,
        Field::Nibble => 16,
    }
}

/// The value of the numeral `s` for field `f`.
pub open spec fn field_value(s: Seq<char>, f: Field) -> Result<nat, LineError> {
    match numeral(s) {
        None => Err(LineError::BadNumber(f)),
        Some(n) => if n < limit(f) {
            Ok(n)
        } else {
            Err(LineError::OutOfRange(f))
        },
    }
}

/// The operand that a word stands for. The forms are tried in order:
/// `V<d>`, `I`, `DT`, `ST`, `<d>A`, `<d>B`, `<d>N`.
pub open spec fn operand(w: Seq<char>) -> Result<Parameter, LineError> {
    if w.len() > 0 && w[0] == 'V' {
        match field_value(w.drop_first(), Field::Register) {
            Ok(n) => Ok(Parameter::Register(Register::V(n as u8))),
            Err(e) => Err(e),
        }
    } else if w == seq!['I'] {
        Ok(Parameter::Register(Register::I))
    } else if w == seq!['D', 'T'] {
        Ok(Parameter::Register(Register::DT))
    } else if w == seq!['S', 'T'] {
        Ok(Parameter::Register(Register::ST))
    } else if w.len() > 0 && w.last() == 'A' {
        match field_value(w.drop_last(), Field::Address) {
            Ok(n) => Ok(Parameter::Address(n as u16)),
            Err(e) => Err(e),
        }
    } else if w.len() > 0 && w.last() == 'B' {
        match field_value(w.drop_last(), Field::Byte) {
            Ok(n) => Ok(Parameter::Byte(n as u8)),
            Err(e) => Err(e),
        }
    } else if w.len() > 0 && w.last() == 'N' {
        match field_value(w.drop_last(), Field::Nibble) {
            Ok(n) => Ok(Parameter::Nibble(n as u8)),
            Err(e) => Err(e),
        }
    } else {
        Err(LineError::UnknownParameter)
    }
}

/// The operands of a list of words, or the error of the first word that is
/// no operand.
pub open spec fn operands(ws: Seq<Seq<char>>) -> Result<Seq<Parameter>, LineError>
    decreases ws.len(),
{
    if ws.len() == 0 {
        Ok(seq![])
    } else {
        match operand(ws[0]) {
            Err(e) => Err(e),
            Ok(p) => match operands(ws.drop_first()) {
                Err(e) => Err(e),
                Ok(ps) => Ok(seq![p] + ps),
            },
        }
    }
}

/// The code of a line: what stands before its first `;`.
pub open spec fn code(line: Seq<char>) -> Seq<char> {
    pieces(line, Separator::Comment)[0]
}

/// The words of a line: its code, cut at white space.
pub open spec fn fields(line: Seq<char>) -> Seq<Seq<char>> {
    pieces(code(line), Separator::Blank).filter(
        |w: Seq<char>| w.len() > 0,
    )
}

/// What one line assembles to: no word for a line without words.
pub open spec fn line_result(line: Seq<char>) -> Result<Option<u16>, LineError> {
    let f = fields(line);
    if f.len() == 0 {
        Ok(None)
    } else {
        match mnemonic(f[0]) {
            None => Err(LineError::UnknownInstruction),
            Some(ins) => match operands(f.drop_first()) {
                Err(e) => Err(e),
                Ok(ps) => match encode(ins, ps) {
                    Ok(w) => Ok(Some(w)),
                    Err(e) => Err(LineError::Encode(e)),
                },
            },
        }
    }
}

/// The words of lines `i` and after, or the first error among them.
pub open spec fn assemble_from(ls: Seq<Seq<char>>, i: nat) -> Result<Seq<u16>, AssembleError>
    decreases ls.len() - i,
{
    if i >= ls.len() {
        Ok(seq![])
    } else {
        match line_result(ls[i as int]) {
            Err(e) => Err(AssembleError { line: (i + 1) as usize, error: e }),
            Ok(w) => match assemble_from(ls, i + 1) {
                Err(e) => Err(e),
                Ok(ws) => Ok(
                    match w {
                        Some(w) => seq![w] + ws,
                        None => ws,
                    },
                ),
            },
        }
    }
}

/// What a source text assembles to: one word for each line with words, in
/// the order of the lines, or the first error.
pub open spec fn assemble(text: Seq<char>) -> Result<Seq<u16>, AssembleError> {
    assemble_from(pieces(text, Separator::LineBreak), 0)
}

/// `ws` followed by what `r` holds, or the error of `r`.
pub open spec fn after<T, E>(ws: Seq<T>, r: Result<Seq<T>, E>) -> Result<Seq<T>, E> {
    match r {
        Ok(vs) => Ok(ws + vs),
        Err(e) => Err(e),
    }
}

/// An operand read from text is range-checked: its value fits its field.
pub proof fn lemma_operand_in_range(w: Seq<char>)
    ensures
        operand(w) is Ok ==> operand(w)->Ok_0.wf(),
{
}

/// Whether a word is the given name.
fn is_name(w: &[char], name: &str) -> (r: bool)
    ensures
        r == (w@ == name@),
{
    let n = chars_of(name);
    if w.len() != n.len() {
        return false;
    }
    let mut i: usize = 0;
    while i < w.len()
        invariant
            i <= w.len() == n.len(),
            n@ == name@,
            w@.take(i as int) == n@.take(i as int),
        decreases w.len() - i,
    {
        if w[i] != n[i] {
            return false;
        }
        assert(w@.take(i + 1) =~= n@.take(i + 1));
        i += 1;
    }
    assert(w@ =~= w@.take(i as int));
    assert(n@ =~= n@.take(i as int));
    true
}

/// Reads an instruction name.
fn parse_instruction(word: &[char]) -> (r: Result<Instruction, LineError>)
    ensures
        match mnemonic(word@) {
            Some(ins) => r == Ok::<Instruction, LineError>(ins),
            None => r == Err::<Instruction, LineError>(LineError::UnknownInstruction),
        },
{
    if is_name(word, "CLS") {
        Ok(Instruction::Cls)
    } else if is_name(word, "RET") {
        Ok(Instruction::Ret)
    } else if is_name(word, "JMP") {
        Ok(Instruction::Jmp)
    } else if is_name(word, "CALL") {
        Ok(Instruction::Call)
    } else if is_name(word, "SEQ") {
        Ok(Instruction::Se)
    } else if is_name(word, "SNE") {
        Ok(Instruction::Sne)
    } else if is_name(word, "LD") {
        Ok(Instruction::Ld)
    } else if is_name(word, "ADD") {
        Ok(Instruction::Add)
    } else if is_name(word, "OR") {
        Ok(Instruction::Or)
    } else if is_name(word, "AND") {
        Ok(Instruction::And)
    } else if is_name(word, "XOR") {
        Ok(Instruction::Xor)
    } else if is_name(word, "SUB") {
        Ok(Instruction::Sub)
    } else if is_name(word, "SHR") {
        Ok(Instruction::Shr)
    } else if is_name(word, "SUBN") {
        Ok(Instruction::Subn)
    } else if is_name(word, "SHL") {
        Ok(Instruction::Shl)
    } else if is_name(word, "JMPO") {
        Ok(Instruction::Jmpo)
    } else if is_name(word, "RND") {
        Ok(Instruction::Rnd)
    } else if is_name(word, "DRW") {
        Ok(Instruction::Drw)
    } else if is_name(word, "SKP") {
        Ok(Instruction::Skp)
    } else if is_name(word, "SKNP") {
        Ok(Instruction::Sknp)
    } else if is_name(word, "LDK") {
        Ok(Instruction::Ldk)
    } else if is_name(word, "SPR") {
        Ok(Instruction::Spr)
    } else if is_name(word, "BCD") {
        Ok(Instruction::Bcd)
    } else if is_name(word, "STN") {
        Ok(Instruction::Stn)
    } else if is_name(word, "LDN") {
        Ok(Instruction::Ldn)
    } else {
        Err(LineError::UnknownInstruction)
    }
}

/// Reads the numeral `s` for field `f`.
fn parse_field(s: &[char], f: Field) -> (r: Result<u16, LineError>)
    ensures
        match field_value(s@, f) {
            Ok(n) => r == Ok::<u16, LineError>(n as u16),
            Err(e) => r == Err::<u16, LineError>(e),
        },
{
    let limit: u64 = match f {
        Field::Register => 16,
        Field::Address => 4096,
        Field::Byte => 256,
        Field::Nibble => 16,
    };
    match parse_numeral(s) {
        None => Err(LineError::BadNumber(f)),
        Some(n) => if n < limit {
            Ok(n as u16)
        } else {
            Err(LineError::OutOfRange(f))
        },
    }
}

/// Reads an operand.
fn parse_parameter(word: &[char]) -> (r: Result<Parameter, LineError>)
    ensures
        r == operand(word@),
{
    let n = word.len();
    if n > 0 && word[0] == 'V' {
        let digits = slice_subrange(word, 1, n);
        assert(digits@ =~= word@.drop_first());
        match parse_field(digits, Field::Register) {
            Ok(x) => Ok(Parameter::Register(Register::V(x as u8))),
            Err(e) => Err(e),
        }
    } else if n == 1 && word[0] == 'I' {
        assert(word@ =~= seq!['I']);
        Ok(Parameter::Register(Register::I))
    } else if n == 2 && word[0] == 'D' && word[1] == 'T' {
        assert(word@ =~= seq!['D', 'T']);
        Ok(Parameter::Register(Register::DT))
    } else if n == 2 && word[0] == 'S' && word[1] == 'T' {
        assert(word@ =~= seq!['S', 'T']);
        Ok(Parameter::Register(Register::ST))
    } else if n > 0 && (word[n - 1] == 'A' || word[n - 1] == 'B' || word[n - 1] == 'N') {
        let digits = slice_subrange(word, 0, n - 1);
        assert(digits@ =~= word@.drop_last());
        let last = word[n - 1];
        if last == 'A' {
            match parse_field(digits, Field::Address) {
                Ok(a) => Ok(Parameter::Address(a)),
                Err(e) => Err(e),
            }
        } else if last == 'B' {
            match parse_field(digits, Field::Byte) {
                Ok(b) => Ok(Parameter::Byte(b as u8)),
                Err(e) => Err(e),
            }
        } else {
            match parse_field(digits, Field::Nibble) {
                Ok(x) => Ok(Parameter::Nibble(x as u8)),
                Err(e) => Err(e),
            }
        }
    } else {
        Err(LineError::UnknownParameter)
    }
}

/// The words of a line.
fn fields_of(line: &[char]) -> (r: Vec<Vec<char>>)
    ensures
        views(r@) == fields(line@),
{
    let parts = split(line, Separator::Comment);
    proof {
        lemma_pieces_len(line@, Separator::Comment);
        assert(parts@[0]@ == views(parts@)[0]);
    }
    let words = split(parts[0].as_slice(), Separator::Blank);
    let ghost ws = views(words@);
    let ghost nonempty = |w: Seq<char>| w.len() > 0;
    let mut r: Vec<Vec<char>> = Vec::new();
    let mut k: usize = 0;
    while k < words.len()
        invariant
            k <= words.len(),
            ws == views(words@),
            ws == pieces(code(line@), Separator::Blank),
            nonempty == |w: Seq<char>| w.len() > 0,
            views(r@) == ws.take(k as int).filter(nonempty),
        decreases words.len() - k,
    {
        proof {
            reveal(Seq::filter);
            assert(ws.take(k + 1).drop_last() =~= ws.take(k as int));
            assert(ws[k as int] == words@[k as int]@);
        }
        if words[k].len() > 0 {
            let w = slice_to_vec_chars(words[k].as_slice());
            r.push(w);
            assert(views(r@) =~= ws.take(k + 1).filter(nonempty));
        } else {
            assert(views(r@) =~= ws.take(k + 1).filter(nonempty));
        }
        k += 1;
    }
    assert(ws.take(k as int) =~= ws);
    r
}

fn slice_to_vec_chars(s: &[char]) -> (r: Vec<char>)
    ensures
        r@ == s@,
{
    vstd::slice::slice_to_vec(s)
}

/// Assembles one line: `None` for a line without words.
fn parse_line(line: &[char]) -> (r: Result<Option<u16>, LineError>)
    ensures
        r == line_result(line@),
{
    let f = fields_of(line);
    let ghost fv = views(f@);
    if f.len() == 0 {
        return Ok(None);
    }
    let ins = match parse_instruction(f[0].as_slice()) {
        Ok(ins) => ins,
        Err(e) => return Err(e),
    };
    let mut params: Vec<Parameter> = Vec::new();
    let mut j: usize = 1;
    assert(fv.drop_first() =~= fv.skip(1));
    while j < f.len()
        invariant
            1 <= j <= f.len(),
            fv == views(f@),
            fv == fields(line@),
            mnemonic(fv[0]) == Some(ins),
            operands(fv.drop_first()) == after(params@, operands(fv.skip(j as int))),
        decreases f.len() - j,
    {
        assert(fv.skip(j as int).drop_first() =~= fv.skip(j + 1));
        assert(fv.skip(j as int)[0] == f@[j as int]@);
        match parse_parameter(f[j].as_slice()) {
            Ok(p) => {
                assert(after(params@, operands(fv.skip(j as int))) =~= after(
                    params@.push(p),
                    operands(fv.skip(j + 1)),
                )) by {
                    match operands(fv.skip(j + 1)) {
                        Ok(qs) => {
                            assert(params@ + (seq![p] + qs) =~= params@.push(p) + qs);
                        },
                        Err(e) => {},
                    }
                }
                params.push(p);
            },
            Err(e) => return Err(e),
        }
        j += 1;
    }
    assert(fv.skip(j as int) =~= Seq::<Seq<char>>::empty());
    assert(params@ + Seq::<Parameter>::empty() =~= params@);
    match generate_instruction(&ins, params.as_slice()) {
        Ok(w) => Ok(Some(w)),
        Err(e) => Err(LineError::Encode(e)),
    }
}

/// `r` holds what `expected` holds.
pub open spec fn is_result(r: Result<Vec<u16>, AssembleError>, expected: Result<Seq<u16>, AssembleError>) -> bool {
    match (r, expected) {
        (Ok(v), Ok(ws)) => v@ == ws,
        (Err(e), Err(f)) => e == f,
        _ => false,
    }
}

/// Assembles a source text into one word for each line that holds an
/// instruction, in the order of the lines, or returns the first error with
/// its line number.
pub fn parse(text: &str) -> (r: Result<Vec<u16>, AssembleError>)
    ensures
        is_result(r, assemble(text@)),
{
    let chars = chars_of(text);
    let lines = split(chars.as_slice(), Separator::LineBreak);
    let ghost ls = views(lines@);
    let mut words: Vec<u16> = Vec::new();
    let mut i: usize = 0;
    assert(after(words@, assemble_from(ls, 0)) =~= assemble_from(ls, 0)) by {
        match assemble_from(ls, 0) {
            Ok(ws) => assert(Seq::<u16>::empty() + ws =~= ws),
            Err(e) => {},
        }
    }
    while i < lines.len()
        invariant
            i <= lines.len(),
            ls == views(lines@),
            ls == pieces(text@, Separator::LineBreak),
            assemble_from(ls, 0) == after(words@, assemble_from(ls, i as nat)),
        decreases lines.len() - i,
    {
        assert(ls[i as int] == lines@[i as int]@);
        match parse_line(lines[i].as_slice()) {
            Ok(Some(w)) => {
                assert(after(words@, assemble_from(ls, i as nat)) =~= after(
                    words@.push(w),
                    assemble_from(ls, (i + 1) as nat),
                )) by {
                    match assemble_from(ls, (i + 1) as nat) {
                        Ok(ws) => assert(words@ + (seq![w] + ws) =~= words@.push(w) + ws),
                        Err(e) => {},
                    }
                }
                words.push(w);
            },
            Ok(None) => {},
            Err(e) => {
                return Err(AssembleError { line: i + 1, error: e });
            },
        }
        i += 1;
    }
    assert(words@ + Seq::<u16>::empty() =~= words@);
    Ok(words)
}

/// The words as a byte stream: two bytes for each word, high byte first.
pub fn to_bytes(words: &[u16]) -> (r: Vec<u8>)
    ensures
        r@.len() == 2 * words@.len(),
        forall|i: int|
            0 <= i < words@.len() ==> r@[2 * i] == words@[i] / 256 && r@[2 * i + 1] == words@[i]
                % 256,
{
    let mut r: Vec<u8> = Vec::new();
    let mut i: usize = 0;
    while i < words.len()
        invariant
            i <= words.len(),
            r@.len() == 2 * i,
            forall|k: int|
                0 <= k < i ==> r@[2 * k] == words@[k] / 256 && r@[2 * k + 1] == words@[k] % 256,
        decreases words.len() - i,
    {
        let w = words[i];
        r.push((w / 256) as u8);
        r.push((w % 256) as u8);
        i += 1;
    }
    r
}

/// Nothing but white space.
pub open spec fn all_blank(s: Seq<char>) -> bool {
    forall|i: int| 0 <= i < s.len() ==> is_blank(#[trigger] s[i])
}

proof fn lemma_blank_pieces(s: Seq<char>)
    requires
        all_blank(s),
    ensures
        forall|k: int|
            0 <= k < pieces(s, Separator::Blank).len() ==> (#[trigger] pieces(
                s,
                Separator::Blank,
            )[k]).len() == 0,
    decreases s.len(),
{
    let sp = Separator::Blank;
    if s.len() > 0 {
        assert(is_blank(s[s.len() - 1]));
        assert(separates(sp, s.last()));
        lemma_blank_pieces(s.drop_last());
        assert(pieces(s, sp) == pieces(s.drop_last(), sp).push(Seq::empty()));
    } else {
        assert(pieces(s, sp) == seq![Seq::<char>::empty()]);
    }
}

/// A blank line, or one that holds only a comment, assembles to no word and
/// no error.
pub proof fn lemma_blank_line(line: Seq<char>)
    requires
        all_blank(code(line)),
    ensures
        line_result(line) == Ok::<Option<u16>, LineError>(None),
{
    let ps = pieces(code(line), Separator::Blank);
    lemma_blank_pieces(code(line));
    let nonempty = |w: Seq<char>| w.len() > 0;
    assert(ps.all(|x: Seq<char>| !nonempty(x)));
    ps.lemma_all_neg_filter_empty(nonempty);
}

proof fn lemma_pieces_bound(s: Seq<char>, sep: Separator)
    ensures
        pieces(s, sep).len() <= s.len() + 1,
    decreases s.len(),
{
    if s.len() > 0 {
        lemma_pieces_bound(s.drop_last(), sep);
        lemma_pieces_len(s.drop_last(), sep);
    }
}

/// The lines of two texts joined by a line break are the lines of the first
/// followed by those of the second.
proof fn lemma_lines_append(a: Seq<char>, b: Seq<char>)
    ensures
        pieces(a + seq!['\n'] + b, Separator::LineBreak) == pieces(a, Separator::LineBreak) + pieces(
            b,
            Separator::LineBreak,
        ),
    decreases b.len(),
{
    let lb = Separator::LineBreak;
    let t = a + seq!['\n'] + b;
    if b.len() == 0 {
        assert(t.drop_last() =~= a);
        assert(pieces(a, lb).push(Seq::empty()) =~= pieces(a, lb) + pieces(b, lb));
    } else {
        assert(t.drop_last() =~= a + seq!['\n'] + b.drop_last());
        lemma_lines_append(a, b.drop_last());
        lemma_pieces_len(b.drop_last(), lb);
        let p = pieces(a, lb);
        let q = pieces(b.drop_last(), lb);
        if separates(lb, b.last()) {
            assert((p + q).push(Seq::empty()) =~= p + q.push(Seq::empty()));
        } else {
            assert((p + q).update((p + q).len() - 1, (p + q).last().push(b.last())) =~= p + q.update(
                q.len() - 1,
                q.last().push(b.last()),
            ));
        }
    }
}

/// `r` with the line number of its error moved down by `d` lines.
pub open spec fn shifted(r: Result<Seq<u16>, AssembleError>, d: nat) -> Result<Seq<u16>, AssembleError> {
    match r {
        Ok(ws) => Ok(ws),
        Err(e) => Err(AssembleError { line: (e.line + d) as usize, error: e.error }),
    }
}

proof fn lemma_assemble_suffix(p: Seq<Seq<char>>, q: Seq<Seq<char>>, j: nat)
    requires
        j <= q.len(),
        p.len() + q.len() <= usize::MAX,
    ensures
        assemble_from(p + q, p.len() + j) == shifted(assemble_from(q, j), p.len()),
    decreases q.len() - j,
{
    if j < q.len() {
        lemma_assemble_suffix(p, q, j + 1);
        assert((p + q)[(p.len() + j) as int] == q[j as int]);
        assert((p.len() + j + 1) as nat == p.len() + (j + 1) as nat);
    }
}

proof fn lemma_assemble_prefix(p: Seq<Seq<char>>, q: Seq<Seq<char>>, i: nat)
    requires
        i <= p.len(),
    ensures
        assemble_from(p + q, i) == match assemble_from(p, i) {
            Err(e) => Err(e),
            Ok(ws) => after(ws, assemble_from(p + q, p.len())),
        },
    decreases p.len() - i,
{
    if i < p.len() {
        lemma_assemble_prefix(p, q, i + 1);
        assert((p + q)[i as int] == p[i as int]);
        match (assemble_from(p, i + 1), assemble_from(p + q, p.len())) {
            (Ok(ws), Ok(vs)) => {
                let w = line_result(p[i as int]);
                if w is Ok && w->Ok_0 is Some {
                    assert(seq![w->Ok_0->Some_0] + (ws + vs) =~= (seq![w->Ok_0->Some_0] + ws) + vs);
                }
            },
            _ => {},
        }
    } else {
        assert(after(Seq::<u16>::empty(), assemble_from(p + q, p.len())) =~= assemble_from(
            p + q,
            p.len(),
        )) by {
            match assemble_from(p + q, p.len()) {
                Ok(vs) => assert(Seq::<u16>::empty() + vs =~= vs),
                Err(e) => {},
            }
        }
    }
}

/// Lines are assembled in source order: the words of two texts joined by a
/// line break are the words of the first followed by those of the second.
/// The first error wins; an error of the second text keeps its place, so its
/// line number grows by the number of lines of the first.
pub proof fn lemma_source_order(a: Seq<char>, b: Seq<char>)
    requires
        a.len() + b.len() + 2 <= usize::MAX,
    ensures
        assemble(a + seq!['\n'] + b) == match assemble(a) {
            Err(e) => Err(e),
            Ok(wa) => after(wa, shifted(assemble(b), pieces(a, Separator::LineBreak).len())),
        },
{
    let lb = Separator::LineBreak;
    let p = pieces(a, lb);
    let q = pieces(b, lb);
    lemma_lines_append(a, b);
    lemma_pieces_bound(a, lb);
    lemma_pieces_bound(b, lb);
    lemma_assemble_prefix(p, q, 0);
    lemma_assemble_suffix(p, q, 0);
}

/// Every line of the text is blank or holds only a comment.
pub open spec fn only_comments(text: Seq<char>) -> bool {
    forall|k: int|
        0 <= k < pieces(text, Separator::LineBreak).len() ==> all_blank(
            code(#[trigger] pieces(text, Separator::LineBreak)[k]),
        )
}

proof fn lemma_comment_lines_from(ls: Seq<Seq<char>>, i: nat)
    requires
        i <= ls.len(),
        forall|k: int| 0 <= k < ls.len() ==> all_blank(code(#[trigger] ls[k])),
    ensures
        assemble_from(ls, i) == Ok::<Seq<u16>, AssembleError>(seq![]),
    decreases ls.len() - i,
{
    if i < ls.len() {
        lemma_comment_lines_from(ls, i + 1);
        lemma_blank_line(ls[i as int]);
    }
}

/// A text of blank and comment lines assembles to no word and no error, and
/// such lines after a text add nothing to it.
pub proof fn lemma_comments_add_nothing(a: Seq<char>, c: Seq<char>)
    requires
        only_comments(c),
        a.len() + c.len() + 2 <= usize::MAX,
    ensures
        assemble(c) == Ok::<Seq<u16>, AssembleError>(seq![]),
        assemble(a + seq!['\n'] + c) == assemble(a),
{
    lemma_comment_lines_from(pieces(c, Separator::LineBreak), 0);
    lemma_source_order(a, c);
    match assemble(a) {
        Ok(wa) => assert(wa + Seq::<u16>::empty() =~= wa),
        Err(e) => {},
    }
}

/// Two results are the same words or the same error.
pub open spec fn same_outcome(r1: Result<Vec<u16>, AssembleError>, r2: Result<Vec<u16>, AssembleError>) -> bool {
    match (r1, r2) {
        (Ok(a), Ok(b)) => a@ == b@,
        (Err(e), Err(f)) => e == f,
        _ => false,
    }
}

/// Assembling depends on the text alone: any two results that `parse` may
/// return for one text hold the same words or the same error.
pub proof fn lemma_parse_deterministic(
    text: Seq<char>,
    r1: Result<Vec<u16>, AssembleError>,
    r2: Result<Vec<u16>, AssembleError>,
)
    requires
        is_result(r1, assemble(text)),
        is_result(r2, assemble(text)),
    ensures
        same_outcome(r1, r2),
{
}

} // verus!
