//! The contents of `/sys` files.
use vstd::prelude::*;
use vstd::string::StringExecFns;

verus! {

/// `/sys/kernel/version`.
pub fn kernel_version_text() -> (text: String)
    ensures
        text@ == "SudoOS\n"@,
{
    String::from_str("SudoOS\n")
}

/// `/sys/kernel/ostype`: the system name and the architecture.
pub fn kernel_ostype_text(arch: &str) -> (text: String)
    ensures
        text@ == "SudoOS ("@ + arch@ + ")\n"@,
{
    let mut text = String::from_str("SudoOS (");
    text.append(arch);
    text.append(")\n");
    text
}

/// One name per line.
pub open spec fn name_lines(names: Seq<Seq<char>>) -> Seq<char>
    decreases names.len(),
{
    if names.len() == 0 {
        Seq::empty()
    } else {
        name_lines(names.drop_last()) + names.last() + "\n"@
    }
}

fn append_name_lines(text: &mut String, names: &[&str])
    ensures
        final(text)@ == old(text)@ + name_lines(names@.map_values(|name: &str| name@)),
{
    let mut i: usize = 0;
    while i < names.len()
        invariant
            i <= names@.len(),
            text@ == old(text)@ + name_lines(names@.subrange(0, i as int).map_values(|name: &str| name@)),
        decreases names@.len() - i,
    {
        text.append(names[i]);
        text.append("\n");
        proof {
            let before = names@.subrange(0, i as int).map_values(|name: &str| name@);
            let after = names@.subrange(0, i + 1).map_values(|name: &str| name@);
            assert(after.drop_last() =~= before);
            assert(text@ =~= old(text)@ + name_lines(after));
        }
        i = i + 1;
    }
    proof {
        assert(names@.subrange(0, names@.len() as int) =~= names@);
    }
}

/// `/sys/class/block`: the block devices one per line, or `vda` when none
/// is registered.
pub fn block_class_text(names: &[&str]) -> (text: String)
    ensures
        text@ == if names@.len() == 0 {
            "vda\n"@
        } else {
            name_lines(names@.map_values(|name: &str| name@))
        },
{
    let mut text = String::new();
    append_name_lines(&mut text, names);
    if names.len() == 0 {
        text.append("vda\n");
    }
    proof {
        if names@.len() == 0 {
            assert(names@.map_values(|name: &str| name@) =~= Seq::<Seq<char>>::empty());
        }
        assert(text@ =~= if names@.len() == 0 {
            "vda\n"@
        } else {
            name_lines(names@.map_values(|name: &str| name@))
        });
    }
    text
}

/// `/sys/class/net`: the network devices one per line.
pub fn net_class_text(names: &[&str]) -> (text: String)
    ensures
        text@ == name_lines(names@.map_values(|name: &str| name@)),
{
    let mut text = String::new();
    append_name_lines(&mut text, names);
    proof {
        assert(text@ =~= name_lines(names@.map_values(|name: &str| name@)));
    }
    text
}

} // verus!
