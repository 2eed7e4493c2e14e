//! The line that the agent sends to the display once a second:
//! `CPU=35;GPU=42;RAM=68;CPU_TEMP=56;GPU_TEMP=61\n`.
use vstd::prelude::*;
use crate::fields::{
    field, field_separator, field_value, lemma_first_stripped_at, lemma_field_facts, lemma_not_prefix,
    lemma_split_first_field, lemma_split_single, lemma_trim_newline, no_separator, split,
};
use crate::metrics::Metrics;
use crate::temperature::{
    clamped, cpu_temp_key, gpu_temp_key, lemma_text_facts, reading_of, serial_temperature,
    temperature_field, temperature_text, TemperatureReading,
};
use crate::text::{decimal, is_whitespace, push_char, push_chars, push_decimal, starts_with, trim};

verus! {

pub open spec fn cpu_key() -> Seq<char> {
    seq!['C', 'P', 'U']
}

pub open spec fn gpu_key() -> Seq<char> {
    seq!['G', 'P', 'U']
}

pub open spec fn ram_key() -> Seq<char> {
    seq!['R', 'A', 'M']
}

/// The five fields of the line, without the separators and the newline.
pub open spec fn line_fields(metrics: Metrics, temperatures: TemperatureReading) -> Seq<Seq<char>> {
    seq![
        field(cpu_key(), decimal(metrics.cpu as nat)),
        field(gpu_key(), decimal(metrics.gpu as nat)),
        field(ram_key(), decimal(metrics.ram as nat)),
        field(cpu_temp_key(), temperature_text(temperatures.cpu)),
        field(gpu_temp_key(), temperature_text(temperatures.gpu)),
    ]
}

/// The serial line: the five fields joined by `;`, ended by a newline.
pub open spec fn serial_line_text(metrics: Metrics, temperatures: TemperatureReading) -> Seq<
    char,
> {
    let f = line_fields(metrics, temperatures);
    f[0] + seq![';'] + f[1] + seq![';'] + f[2] + seq![';'] + f[3] + seq![';'] + f[4] + seq!['\n']
}

fn push_key(s: &mut String, key: &Vec<char>)
    ensures
        final(s)@ == old(s)@ + key@.push('='),
{
    push_chars(s, key);
    push_char(s, '=');
    proof {
        assert(old(s)@ + key@ + seq!['='] =~= old(s)@ + key@.push('='));
    }
}

/// Builds the serial line for one tick.
pub fn serial_line(metrics: &Metrics, temperatures: &TemperatureReading) -> (r: String)
    ensures
        r@ == serial_line_text(*metrics, *temperatures),
{
    let cpu: Vec<char> = vec!['C', 'P', 'U'];
    let gpu: Vec<char> = vec!['G', 'P', 'U'];
    let ram: Vec<char> = vec!['R', 'A', 'M'];
    let cpu_temp: Vec<char> = vec!['C', 'P', 'U', '_', 'T', 'E', 'M', 'P'];
    let gpu_temp: Vec<char> = vec!['G', 'P', 'U', '_', 'T', 'E', 'M', 'P'];
    proof {
        assert(cpu@ =~= cpu_key());
        assert(gpu@ =~= gpu_key());
        assert(ram@ =~= ram_key());
        assert(cpu_temp@ =~= cpu_temp_key());
        assert(gpu_temp@ =~= gpu_temp_key());
    }
    let mut r = String::new();
    push_key(&mut r, &cpu);
    push_decimal(&mut r, metrics.cpu as u64);
    push_char(&mut r, ';');
    push_key(&mut r, &gpu);
    push_decimal(&mut r, metrics.gpu as u64);
    push_char(&mut r, ';');
    push_key(&mut r, &ram);
    push_decimal(&mut r, metrics.ram as u64);
    push_char(&mut r, ';');
    push_key(&mut r, &cpu_temp);
    let t = serial_temperature(temperatures.cpu);
    push_chars_of(&mut r, &t);
    push_char(&mut r, ';');
    push_key(&mut r, &gpu_temp);
    let t = serial_temperature(temperatures.gpu);
    push_chars_of(&mut r, &t);
    push_char(&mut r, '\n');
    proof {
        assert(r@ =~= serial_line_text(*metrics, *temperatures));
    }
    r
}

fn push_chars_of(s: &mut String, t: &String)
    ensures
        final(s)@ == old(s)@ + t@,
{
    crate::text::push_str(s, t.as_str());
}

// ---------------------------------------------------------------------
// Reading the line back
// ---------------------------------------------------------------------
proof fn lemma_split5(
    f0: Seq<char>,
    f1: Seq<char>,
    f2: Seq<char>,
    f3: Seq<char>,
    f4: Seq<char>,
    sep: char,
)
    requires
        no_separator(f0, sep),
        no_separator(f1, sep),
        no_separator(f2, sep),
        no_separator(f3, sep),
        no_separator(f4, sep),
    ensures
        split(f0 + seq![sep] + f1 + seq![sep] + f2 + seq![sep] + f3 + seq![sep] + f4, sep)
            == seq![f0, f1, f2, f3, f4],
{
    let r3 = f3 + seq![sep] + f4;
    let r2 = f2 + seq![sep] + r3;
    let r1 = f1 + seq![sep] + r2;
    let r0 = f0 + seq![sep] + r1;
    assert(r0 =~= f0 + seq![sep] + f1 + seq![sep] + f2 + seq![sep] + f3 + seq![sep] + f4);
    lemma_split_single(f4, sep);
    lemma_split_first_field(f3, f4, sep);
    lemma_split_first_field(f2, r3, sep);
    lemma_split_first_field(f1, r2, sep);
    lemma_split_first_field(f0, r1, sep);
    assert(split(r0, sep) =~= seq![f0, f1, f2, f3, f4]);
}

proof fn lemma_key_facts(key: Seq<char>)
    requires
        key == cpu_key() || key == gpu_key() || key == ram_key() || key == cpu_temp_key() || key
            == gpu_temp_key(),
    ensures
        no_separator(key, field_separator()),
        key.len() > 0,
        !is_whitespace(key[0]),
{
}

proof fn lemma_line_field(key: Seq<char>, value: Option<u8>)
    requires
        key == cpu_key() || key == gpu_key() || key == ram_key() || key == cpu_temp_key() || key
            == gpu_temp_key(),
    ensures
        no_separator(field(key, temperature_text(value)), field_separator()),
        trim(field(key, temperature_text(value))) == field(key, temperature_text(value)),
        starts_with(field(key, temperature_text(value)), key.push('=')),
        field(key, temperature_text(value)).skip(key.len() + 1int) == temperature_text(value),
        !is_whitespace(field(key, temperature_text(value)).last()),
{
    lemma_key_facts(key);
    lemma_text_facts(value);
    lemma_field_facts(key, temperature_text(value));
}

proof fn lemma_line_split(metrics: Metrics, temperatures: TemperatureReading)
    ensures
        split(serial_line_text(metrics, temperatures), field_separator()) == seq![
            line_fields(metrics, temperatures)[0],
            line_fields(metrics, temperatures)[1],
            line_fields(metrics, temperatures)[2],
            line_fields(metrics, temperatures)[3],
            line_fields(metrics, temperatures)[4] + seq!['\n'],
        ],
{
    let f = line_fields(metrics, temperatures);
    let sep = field_separator();
    lemma_line_field(cpu_key(), Some(metrics.cpu));
    lemma_line_field(gpu_key(), Some(metrics.gpu));
    lemma_line_field(ram_key(), Some(metrics.ram));
    lemma_line_field(cpu_temp_key(), temperatures.cpu);
    lemma_line_field(gpu_temp_key(), temperatures.gpu);
    assert(f[0] == field(cpu_key(), temperature_text(Some(metrics.cpu))));
    assert(f[1] == field(gpu_key(), temperature_text(Some(metrics.gpu))));
    assert(f[2] == field(ram_key(), temperature_text(Some(metrics.ram))));
    let last = f[4] + seq!['\n'];
    assert(no_separator(last, sep)) by {
        assert forall|i: int| 0 <= i < last.len() implies #[trigger] last[i] != sep by {
            if i < f[4].len() {
                assert(last[i] == f[4][i]);
            }
        }
    }
    lemma_split5(f[0], f[1], f[2], f[3], last, sep);
    assert(f[0] + seq![sep] + f[1] + seq![sep] + f[2] + seq![sep] + f[3] + seq![sep] + last
        =~= serial_line_text(metrics, temperatures));
}

proof fn lemma_last_field_trim(value: Option<u8>)
    ensures
        trim(field(gpu_temp_key(), temperature_text(value)) + seq!['\n']) == field(
            gpu_temp_key(),
            temperature_text(value),
        ),
{
    let f = field(gpu_temp_key(), temperature_text(value));
    lemma_line_field(gpu_temp_key(), value);
    assert(f[0] == 'G');
    lemma_trim_newline(f);
}

proof fn lemma_line_trimmed(metrics: Metrics, temperatures: TemperatureReading)
    ensures
        split(serial_line_text(metrics, temperatures), field_separator()).len() == 5,
        forall|i: int|
            0 <= i < 5 ==> trim(
                #[trigger] split(serial_line_text(metrics, temperatures), field_separator())[i],
            ) == line_fields(metrics, temperatures)[i],
{
    let f = line_fields(metrics, temperatures);
    lemma_line_split(metrics, temperatures);
    lemma_line_field(cpu_key(), Some(metrics.cpu));
    lemma_line_field(gpu_key(), Some(metrics.gpu));
    lemma_line_field(ram_key(), Some(metrics.ram));
    lemma_line_field(cpu_temp_key(), temperatures.cpu);
    lemma_last_field_trim(temperatures.gpu);
    assert(f[0] == field(cpu_key(), temperature_text(Some(metrics.cpu))));
    assert(f[1] == field(gpu_key(), temperature_text(Some(metrics.gpu))));
    assert(f[2] == field(ram_key(), temperature_text(Some(metrics.ram))));
}

proof fn lemma_line_cpu_temperature(metrics: Metrics, temperatures: TemperatureReading)
    ensures
        temperature_field(serial_line_text(metrics, temperatures), cpu_temp_key()) == clamped(
            temperatures.cpu,
        ),
{
    let f = line_fields(metrics, temperatures);
    let line = serial_line_text(metrics, temperatures);
    let fields = split(line, field_separator());
    let p = cpu_temp_key().push('=');
    lemma_line_trimmed(metrics, temperatures);
    lemma_line_field(cpu_temp_key(), temperatures.cpu);
    lemma_text_facts(temperatures.cpu);
    assert(trim(fields[0]) == f[0]);
    assert(trim(fields[1]) == f[1]);
    assert(trim(fields[2]) == f[2]);
    assert(trim(fields[3]) == f[3]);
    lemma_not_prefix(f[0], p, 3);
    lemma_not_prefix(f[1], p, 0);
    lemma_not_prefix(f[2], p, 0);
    lemma_first_stripped_at(fields, p, 3);
}

proof fn lemma_line_gpu_temperature(metrics: Metrics, temperatures: TemperatureReading)
    ensures
        temperature_field(serial_line_text(metrics, temperatures), gpu_temp_key()) == clamped(
            temperatures.gpu,
        ),
{
    let f = line_fields(metrics, temperatures);
    let line = serial_line_text(metrics, temperatures);
    let fields = split(line, field_separator());
    let q = gpu_temp_key().push('=');
    lemma_line_trimmed(metrics, temperatures);
    lemma_line_field(gpu_temp_key(), temperatures.gpu);
    lemma_text_facts(temperatures.gpu);
    assert(trim(fields[0]) == f[0]);
    assert(trim(fields[1]) == f[1]);
    assert(trim(fields[2]) == f[2]);
    assert(trim(fields[3]) == f[3]);
    assert(trim(fields[4]) == f[4]);
    lemma_not_prefix(f[0], q, 0);
    lemma_not_prefix(f[1], q, 3);
    lemma_not_prefix(f[2], q, 0);
    lemma_not_prefix(f[3], q, 0);
    lemma_first_stripped_at(fields, q, 4);
}

/// The temperatures that a parser reads back from a serial line are the ones
/// that were sent, limited to 199 degrees.
pub proof fn lemma_serial_line_temperatures(metrics: Metrics, temperatures: TemperatureReading)
    ensures
        reading_of(serial_line_text(metrics, temperatures)) == (TemperatureReading {
            cpu: clamped(temperatures.cpu),
            gpu: clamped(temperatures.gpu),
        }),
{
    lemma_line_cpu_temperature(metrics, temperatures);
    lemma_line_gpu_temperature(metrics, temperatures);
}

/// The usage figures stand in the `CPU=`, `GPU=` and `RAM=` fields of the
/// serial line, in decimal.
pub proof fn lemma_serial_line_metrics(metrics: Metrics, temperatures: TemperatureReading)
    ensures
        field_value(serial_line_text(metrics, temperatures), cpu_key().push('=')) == Some(
            decimal(metrics.cpu as nat),
        ),
        field_value(serial_line_text(metrics, temperatures), gpu_key().push('=')) == Some(
            decimal(metrics.gpu as nat),
        ),
        field_value(serial_line_text(metrics, temperatures), ram_key().push('=')) == Some(
            decimal(metrics.ram as nat),
        ),
{
    let f = line_fields(metrics, temperatures);
    let line = serial_line_text(metrics, temperatures);
    let fields = split(line, field_separator());
    lemma_line_trimmed(metrics, temperatures);
    lemma_line_field(cpu_key(), Some(metrics.cpu));
    lemma_line_field(gpu_key(), Some(metrics.gpu));
    lemma_line_field(ram_key(), Some(metrics.ram));
    assert(f[0] == field(cpu_key(), temperature_text(Some(metrics.cpu))));
    assert(f[1] == field(gpu_key(), temperature_text(Some(metrics.gpu))));
    assert(f[2] == field(ram_key(), temperature_text(Some(metrics.ram))));
    assert(trim(fields[0]) == f[0]);
    assert(trim(fields[1]) == f[1]);
    assert(trim(fields[2]) == f[2]);
    lemma_first_stripped_at(fields, cpu_key().push('='), 0);
    lemma_not_prefix(f[0], gpu_key().push('='), 0);
    lemma_first_stripped_at(fields, gpu_key().push('='), 1);
    lemma_not_prefix(f[0], ram_key().push('='), 0);
    lemma_not_prefix(f[1], ram_key().push('='), 0);
    lemma_first_stripped_at(fields, ram_key().push('='), 2);
}

} // verus!
