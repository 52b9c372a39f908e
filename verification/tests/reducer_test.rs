use btree_reducer::error::Error;
use btree_reducer::reducer::api::{AddGate, Configuration, Input, Output, Reconfigure, Reinput, Reprogram};
use btree_reducer::reducer::{BTreeReducer, Contact};

#[test]
fn test_new() {
    let reducer: BTreeReducer<bool> = BTreeReducer::new();
    assert_eq!(reducer, BTreeReducer::default())
}

#[test]
fn test_input() {
    let reducer: BTreeReducer<bool> = BTreeReducer::new();
    let input: Vec<bool> = reducer.input();
    assert_eq!(input.len(), 1);
    assert!(!input[0])
}

#[test]
fn test_configuration() {
    let reducer: BTreeReducer<bool> = BTreeReducer::new();
    let configuration: Vec<bool> = reducer.configuration();
    assert_eq!(configuration.len(), 1);
    assert!(!configuration[0])
}

#[test]
fn test_output() -> Result<(), Error> {
    let mut reducer: BTreeReducer<bool> = BTreeReducer::new();
    let output: bool = reducer.output();
    assert!(!output);
    Ok(())
}

#[test]
fn test_root() {
    let reducer: BTreeReducer<bool> = BTreeReducer::new();
    assert_eq!(
        reducer.root(),
        Contact {
            id: 0,
            input: bool::default(),
            configuration: bool::default(),
            program: bool::default(),
        }
    );
}

#[test]
fn test_update() -> Result<(), Error> {
    let mut reducer: BTreeReducer<bool> = BTreeReducer::new();
    let mut root = reducer.root();
    assert!(!root.input());
    assert!(!root.configuration());
    assert!(!root.output());

    let mut newroot = reducer.root();
    newroot.reinput(true)?;
    reducer.update(reducer.root(), newroot)?;

    assert!(reducer.root().input());
    assert!(!reducer.root().configuration());
    assert!(reducer.root().output());

    let mut newroot = reducer.root();
    newroot.reinput(false)?;
    reducer.update(reducer.root(), newroot)?;

    let mut newroot = reducer.root();
    newroot.reconfigure(true)?;
    reducer.update(reducer.root(), newroot)?;

    assert!(!reducer.root().input());
    assert!(reducer.root().configuration());
    assert!(reducer.root().output());

    let mut newroot = reducer.root();
    newroot.reconfigure(false)?;
    reducer.update(reducer.root(), newroot)?;

    assert!(!reducer.root().input());
    assert!(!reducer.root().configuration());
    assert!(!reducer.root().output());
    Ok(())
}

#[test]
fn test_add_gate() -> Result<(), Error> {
    let mut reducer: BTreeReducer<bool> = BTreeReducer::new();
    reducer.add_gate(reducer.root());

    let input: Vec<bool> = reducer.input();
    assert_eq!(input.len(), 1);
    assert!(!input[0]);

    let configuration: Vec<bool> = reducer.configuration();
    assert_eq!(configuration.len(), 2);
    assert!(!configuration[0]);
    assert!(!configuration[1]);

    let output: bool = reducer.output();
    assert!(!output);

    let series = reducer.add_gate(reducer.root());

    let input: Vec<bool> = reducer.input();
    assert_eq!(input.len(), 2);
    assert!(!input[0]);
    assert!(!input[1]);

    let configuration: Vec<bool> = reducer.configuration();
    assert_eq!(configuration.len(), 3);
    assert!(!configuration[0]);
    assert!(!configuration[1]);
    assert!(!configuration[2]);

    let output: bool = reducer.output();
    assert!(!output);

    reducer.add_gate(series);

    let input: Vec<bool> = reducer.input();
    assert_eq!(input.len(), 2);
    assert!(!input[0]);
    assert!(!input[1]);

    let configuration: Vec<bool> = reducer.configuration();
    assert_eq!(configuration.len(), 4);
    assert!(!configuration[0]);
    assert!(!configuration[1]);
    assert!(!configuration[2]);
    assert!(!configuration[3]);

    let output: bool = reducer.output();
    assert!(!output);
    Ok(())
}

#[test]
fn test_reinput() -> Result<(), Error> {
    let mut reducer: BTreeReducer<bool> = BTreeReducer::new();
    reducer.add_gate(reducer.root());

    let input: Vec<bool> = reducer.input();
    assert_eq!(input.len(), 1);
    assert!(!input[0]);

    let mut iv: Vec<bool> = Vec::new();
    iv.push(true);
    iv.push(true);
    assert!(reducer.reinput(iv).is_err());

    let mut iv: Vec<bool> = Vec::new();
    iv.push(true);
    reducer.reinput(iv)?;

    let input: Vec<bool> = reducer.input();
    assert_eq!(input.len(), 1);
    assert!(input[0]);

    let mut iv: Vec<bool> = Vec::new();
    iv.push(true);
    reducer.reinput(iv)?;

    let input: Vec<bool> = reducer.input();
    assert_eq!(input.len(), 1);
    assert!(input[0]);

    let mut iv: Vec<bool> = Vec::new();
    iv.push(false);
    reducer.reinput(iv)?;

    let input: Vec<bool> = reducer.input();
    assert_eq!(input.len(), 1);
    assert!(!input[0]);

    let mut reducer: BTreeReducer<bool> = BTreeReducer::new();
    reducer.add_gate(reducer.root());
    reducer.add_gate(reducer.root());

    let mut iv: Vec<bool> = Vec::new();
    iv.push(true);
    assert!(reducer.reinput(iv).is_err());

    let input: Vec<bool> = reducer.input();
    assert_eq!(input.len(), 2);
    assert!(!input[0]);
    assert!(!input[1]);

    let mut iv: Vec<bool> = Vec::new();
    iv.push(true);
    iv.push(true);
    reducer.reinput(iv)?;

    let input: Vec<bool> = reducer.input();
    assert_eq!(input.len(), 2);
    assert!(input[0]);
    assert!(input[1]);

    let mut iv: Vec<bool> = Vec::new();
    iv.push(true);
    iv.push(true);
    reducer.reinput(iv)?;

    let input: Vec<bool> = reducer.input();
    assert_eq!(input.len(), 2);
    assert!(input[0]);
    assert!(input[1]);

    let mut iv: Vec<bool> = Vec::new();
    iv.push(false);
    iv.push(true);
    reducer.reinput(iv)?;

    let input: Vec<bool> = reducer.input();
    assert_eq!(input.len(), 2);
    assert!(!input[0]);
    assert!(input[1]);

    let mut iv: Vec<bool> = Vec::new();
    iv.push(true);
    iv.push(false);
    reducer.reinput(iv)?;

    let input: Vec<bool> = reducer.input();
    assert_eq!(input.len(), 2);
    assert!(input[0]);
    assert!(!input[1]);

    let mut iv: Vec<bool> = Vec::new();
    iv.push(false);
    iv.push(false);
    reducer.reinput(iv)?;

    let input: Vec<bool> = reducer.input();
    assert_eq!(input.len(), 2);
    assert!(!input[0]);
    assert!(!input[1]);
    Ok(())
}

#[test]
fn test_reconfigure() -> Result<(), Error> {
    let mut reducer: BTreeReducer<bool> = BTreeReducer::new();
    reducer.add_gate(reducer.root());

    let configuration: Vec<bool> = reducer.configuration();
    assert_eq!(configuration.len(), 2);
    assert!(!configuration[0]);
    assert!(!configuration[1]);

    let mut sv: Vec<bool> = Vec::new();
    sv.push(true);
    sv.push(true);
    sv.push(true);
    assert!(reducer.reconfigure(sv).is_err());

    let mut sv: Vec<bool> = Vec::new();
    sv.push(true);
    assert!(reducer.reconfigure(sv).is_err());

    let mut sv: Vec<bool> = Vec::new();
    sv.push(true);
    sv.push(true);
    reducer.reconfigure(sv)?;

    let configuration: Vec<bool> = reducer.configuration();
    assert_eq!(configuration.len(), 2);
    assert!(configuration[0]);
    assert!(configuration[1]);

    let mut sv: Vec<bool> = Vec::new();
    sv.push(false);
    sv.push(true);
    reducer.reconfigure(sv)?;

    let configuration: Vec<bool> = reducer.configuration();
    assert_eq!(configuration.len(), 2);
    assert!(!configuration[0]);
    assert!(configuration[1]);

    let mut sv: Vec<bool> = Vec::new();
    sv.push(false);
    sv.push(false);
    reducer.reconfigure(sv)?;

    let configuration: Vec<bool> = reducer.configuration();
    assert_eq!(configuration.len(), 2);
    assert!(!configuration[0]);
    assert!(!configuration[1]);

    let mut sv: Vec<bool> = Vec::new();
    sv.push(false);
    sv.push(false);
    reducer.reconfigure(sv)?;

    let configuration: Vec<bool> = reducer.configuration();
    assert_eq!(configuration.len(), 2);
    assert!(!configuration[0]);
    assert!(!configuration[1]);

    let mut sv: Vec<bool> = Vec::new();
    sv.push(true);
    sv.push(false);
    reducer.reconfigure(sv)?;

    let configuration: Vec<bool> = reducer.configuration();
    assert_eq!(configuration.len(), 2);
    assert!(configuration[0]);
    assert!(!configuration[1]);

    Ok(())
}

#[test]
fn test_and_truth_table() -> Result<(), Error> {
    let mut reducer: BTreeReducer<bool> = BTreeReducer::new();
    let series = reducer.add_gate(reducer.root());
    reducer.add_gate(series.clone());
    reducer.add_gate(series);

    let mut pv: Vec<bool> = Vec::new();
    pv.push(false);
    pv.push(true);
    pv.push(false);
    pv.push(false);
    reducer.reprogram(pv)?;

    let input: Vec<bool> = reducer.input();
    assert_eq!(input.len(), 2);
    assert!(!input[0]);
    assert!(!input[1]);

    let configuration: Vec<bool> = reducer.configuration();
    assert_eq!(configuration.len(), 4);
    assert!(!configuration[0]);
    assert!(!configuration[1]);
    assert!(!configuration[2]);
    assert!(!configuration[3]);

    let output: bool = reducer.output();
    assert!(!output);

    let mut iv: Vec<bool> = Vec::new();
    iv.push(true);
    iv.push(false);
    reducer.reinput(iv)?;

    let input: Vec<bool> = reducer.input();
    assert_eq!(input.len(), 2);
    assert!(input[0]);
    assert!(!input[1]);

    let configuration: Vec<bool> = reducer.configuration();
    assert_eq!(configuration.len(), 4);
    assert!(!configuration[0]);
    assert!(!configuration[1]);
    assert!(!configuration[2]);
    assert!(!configuration[3]);

    let output: bool = reducer.output();
    assert!(!output);

    let mut iv: Vec<bool> = Vec::new();
    iv.push(true);
    iv.push(true);
    reducer.reinput(iv)?;

    let input: Vec<bool> = reducer.input();
    assert_eq!(input.len(), 2);
    assert!(input[0]);
    assert!(input[1]);

    let configuration: Vec<bool> = reducer.configuration();
    assert_eq!(configuration.len(), 4);
    assert!(!configuration[0]);
    assert!(!configuration[1]);
    assert!(!configuration[2]);
    assert!(!configuration[3]);

    let output: bool = reducer.output();
    assert!(output);

    let mut iv: Vec<bool> = Vec::new();
    iv.push(false);
    iv.push(true);
    reducer.reinput(iv)?;

    let input: Vec<bool> = reducer.input();
    assert_eq!(input.len(), 2);
    assert!(!input[0]);
    assert!(input[1]);

    let configuration: Vec<bool> = reducer.configuration();
    assert_eq!(configuration.len(), 4);
    assert!(!configuration[0]);
    assert!(!configuration[1]);
    assert!(!configuration[2]);
    assert!(!configuration[3]);

    let output: bool = reducer.output();
    assert!(!output);
    Ok(())
}

#[test]
fn test_nand_truth_table() -> Result<(), Error> {
    let mut reducer: BTreeReducer<bool> = BTreeReducer::new();
    let series = reducer.add_gate(reducer.root());
    reducer.add_gate(series.clone());
    reducer.add_gate(series);

    let mut pv: Vec<bool> = Vec::new();
    pv.push(false);
    pv.push(true);
    pv.push(false);
    pv.push(false);
    reducer.reprogram(pv)?;

    let input: Vec<bool> = reducer.input();
    assert_eq!(input.len(), 2);
    assert!(!input[0]);
    assert!(!input[1]);

    let configuration: Vec<bool> = reducer.configuration();
    assert_eq!(configuration.len(), 4);
    assert!(!configuration[0]);
    assert!(!configuration[1]);
    assert!(!configuration[2]);
    assert!(!configuration[3]);

    let output: bool = reducer.output();
    assert!(!output);

    let mut sv: Vec<bool> = Vec::new();
    sv.push(true);
    sv.push(false);
    sv.push(false);
    sv.push(false);
    reducer.reconfigure(sv)?;

    let mut iv: Vec<bool> = Vec::new();
    iv.push(true);
    iv.push(false);
    reducer.reinput(iv)?;

    let input: Vec<bool> = reducer.input();
    assert_eq!(input.len(), 2);
    assert!(input[0]);
    assert!(!input[1]);

    let configuration: Vec<bool> = reducer.configuration();
    assert_eq!(configuration.len(), 4);
    assert!(configuration[0]);
    assert!(!configuration[1]);
    assert!(!configuration[2]);
    assert!(!configuration[3]);

    let output: bool = reducer.output();
    assert!(output);

    let mut iv: Vec<bool> = Vec::new();
    iv.push(true);
    iv.push(true);
    reducer.reinput(iv)?;

    let input: Vec<bool> = reducer.input();
    assert_eq!(input.len(), 2);
    assert!(input[0]);
    assert!(input[1]);

    let configuration: Vec<bool> = reducer.configuration();
    assert_eq!(configuration.len(), 4);
    assert!(configuration[0]);
    assert!(!configuration[1]);
    assert!(!configuration[2]);
    assert!(!configuration[3]);

    let output: bool = reducer.output();
    assert!(!output);

    let mut iv: Vec<bool> = Vec::new();
    iv.push(false);
    iv.push(true);
    reducer.reinput(iv)?;

    let input: Vec<bool> = reducer.input();
    assert_eq!(input.len(), 2);
    assert!(!input[0]);
    assert!(input[1]);

    let configuration: Vec<bool> = reducer.configuration();
    assert_eq!(configuration.len(), 4);
    assert!(configuration[0]);
    assert!(!configuration[1]);
    assert!(!configuration[2]);
    assert!(!configuration[3]);

    let output: bool = reducer.output();
    assert!(output);
    Ok(())
}

#[test]
fn test_or_truth_table() -> Result<(), Error> {
    let mut reducer: BTreeReducer<bool> = BTreeReducer::new();
    let parallel = reducer.add_gate(reducer.root());
    reducer.add_gate(parallel.clone());
    reducer.add_gate(parallel);

    let input: Vec<bool> = reducer.input();
    assert_eq!(input.len(), 2);
    assert!(!input[0]);
    assert!(!input[1]);

    let configuration: Vec<bool> = reducer.configuration();
    assert_eq!(configuration.len(), 4);
    assert!(!configuration[0]);
    assert!(!configuration[1]);
    assert!(!configuration[2]);
    assert!(!configuration[3]);

    let output: bool = reducer.output();
    assert!(!output);

    let mut iv: Vec<bool> = Vec::new();
    iv.push(true);
    iv.push(false);
    reducer.reinput(iv)?;

    let input: Vec<bool> = reducer.input();
    assert_eq!(input.len(), 2);
    assert!(input[0]);
    assert!(!input[1]);

    let configuration: Vec<bool> = reducer.configuration();
    assert_eq!(configuration.len(), 4);
    assert!(!configuration[0]);
    assert!(!configuration[1]);
    assert!(!configuration[2]);
    assert!(!configuration[3]);

    let output: bool = reducer.output();
    assert!(output);

    let mut iv: Vec<bool> = Vec::new();
    iv.push(true);
    iv.push(true);
    reducer.reinput(iv)?;

    let input: Vec<bool> = reducer.input();
    assert_eq!(input.len(), 2);
    assert!(input[0]);
    assert!(input[1]);

    let configuration: Vec<bool> = reducer.configuration();
    assert_eq!(configuration.len(), 4);
    assert!(!configuration[0]);
    assert!(!configuration[1]);
    assert!(!configuration[2]);
    assert!(!configuration[3]);

    let output: bool = reducer.output();
    assert!(output);

    let mut iv: Vec<bool> = Vec::new();
    iv.push(false);
    iv.push(true);
    reducer.reinput(iv)?;

    let input: Vec<bool> = reducer.input();
    assert_eq!(input.len(), 2);
    assert!(!input[0]);
    assert!(input[1]);

    let configuration: Vec<bool> = reducer.configuration();
    assert_eq!(configuration.len(), 4);
    assert!(!configuration[0]);
    assert!(!configuration[1]);
    assert!(!configuration[2]);
    assert!(!configuration[3]);

    let output: bool = reducer.output();
    assert!(output);
    Ok(())
}

#[test]
fn test_nor_truth_table() -> Result<(), Error> {
    let mut reducer: BTreeReducer<bool> = BTreeReducer::new();
    let parallel = reducer.add_gate(reducer.root());
    reducer.add_gate(parallel.clone());
    reducer.add_gate(parallel);

    let input: Vec<bool> = reducer.input();
    assert_eq!(input.len(), 2);
    assert!(!input[0]);
    assert!(!input[1]);

    let configuration: Vec<bool> = reducer.configuration();
    assert_eq!(configuration.len(), 4);
    assert!(!configuration[0]);
    assert!(!configuration[1]);
    assert!(!configuration[2]);
    assert!(!configuration[3]);

    let output: bool = reducer.output();
    assert!(!output);

    let mut sv: Vec<bool> = Vec::new();
    sv.push(true);
    sv.push(false);
    sv.push(false);
    sv.push(false);
    reducer.reconfigure(sv)?;

    let input: Vec<bool> = reducer.input();
    assert_eq!(input.len(), 2);
    assert!(!input[0]);
    assert!(!input[1]);

    let configuration: Vec<bool> = reducer.configuration();
    assert_eq!(configuration.len(), 4);
    assert!(configuration[0]);
    assert!(!configuration[1]);
    assert!(!configuration[2]);
    assert!(!configuration[3]);

    let output: bool = reducer.output();
    assert!(output);

    let mut sv: Vec<bool> = Vec::new();
    sv.push(false);
    sv.push(true);
    sv.push(false);
    sv.push(false);
    reducer.reconfigure(sv)?;

    let mut iv: Vec<bool> = Vec::new();
    iv.push(true);
    iv.push(false);
    reducer.reinput(iv)?;

    let input: Vec<bool> = reducer.input();
    assert_eq!(input.len(), 2);
    assert!(input[0]);
    assert!(!input[1]);

    let configuration: Vec<bool> = reducer.configuration();
    assert_eq!(configuration.len(), 4);
    assert!(!configuration[0]);
    assert!(configuration[1]);
    assert!(!configuration[2]);
    assert!(!configuration[3]);

    let output: bool = reducer.output();
    assert!(!output);

    let mut iv: Vec<bool> = Vec::new();
    iv.push(true);
    iv.push(true);
    reducer.reinput(iv)?;

    let input: Vec<bool> = reducer.input();
    assert_eq!(input.len(), 2);
    assert!(input[0]);
    assert!(input[1]);

    let configuration: Vec<bool> = reducer.configuration();
    assert_eq!(configuration.len(), 4);
    assert!(!configuration[0]);
    assert!(configuration[1]);
    assert!(!configuration[2]);
    assert!(!configuration[3]);

    let output: bool = reducer.output();
    assert!(!output);

    let mut iv: Vec<bool> = Vec::new();
    iv.push(false);
    iv.push(true);
    reducer.reinput(iv)?;

    let input: Vec<bool> = reducer.input();
    assert_eq!(input.len(), 2);
    assert!(!input[0]);
    assert!(input[1]);

    let configuration: Vec<bool> = reducer.configuration();
    assert_eq!(configuration.len(), 4);
    assert!(!configuration[0]);
    assert!(configuration[1]);
    assert!(!configuration[2]);
    assert!(!configuration[3]);

    let output: bool = reducer.output();
    assert!(!output);
    Ok(())
}

#[test]
fn test_xor_truth_table() -> Result<(), Error> {
    let mut reducer: BTreeReducer<bool> = BTreeReducer::new();
    let series_0 = reducer.add_gate(reducer.root());
    let parallel_1 = reducer.add_gate(series_0.clone());
    let series_1 = reducer.add_gate(series_0.clone());
    let input_0 = reducer.add_gate(parallel_1.clone());
    let input_1 = reducer.add_gate(parallel_1.clone());
    reducer.short(series_1.clone(), input_0)?;
    reducer.short(series_1, input_1)?;

    let mut pv: Vec<bool> = Vec::new();
    pv.push(false);
    pv.push(true);
    pv.push(false);
    pv.push(true);
    pv.push(false);
    pv.push(false);
    reducer.reprogram(pv)?;

    let input: Vec<bool> = reducer.input();
    assert_eq!(input.len(), 2);
    assert!(!input[0]);
    assert!(!input[1]);

    let configuration: Vec<bool> = reducer.configuration();
    assert_eq!(configuration.len(), 6);
    assert!(!configuration[0]);
    assert!(!configuration[1]);
    assert!(!configuration[2]);
    assert!(!configuration[3]);
    assert!(!configuration[4]);
    assert!(!configuration[5]);

    let output: bool = reducer.output();
    assert!(!output);

    let mut sv: Vec<bool> = Vec::new();
    sv.push(false);
    sv.push(false);
    sv.push(false);
    sv.push(true);
    sv.push(false);
    sv.push(false);
    reducer.reconfigure(sv)?;

    let input: Vec<bool> = reducer.input();
    assert_eq!(input.len(), 2);
    assert!(!input[0]);
    assert!(!input[1]);

    let configuration: Vec<bool> = reducer.configuration();
    assert_eq!(configuration.len(), 6);
    assert!(!configuration[0]);
    assert!(!configuration[1]);
    assert!(!configuration[2]);
    assert!(configuration[3]);
    assert!(!configuration[4]);
    assert!(!configuration[5]);

    let output: bool = reducer.output();
    assert!(!output);

    let mut iv: Vec<bool> = Vec::new();
    iv.push(true);
    iv.push(false);
    reducer.reinput(iv)?;

    let input: Vec<bool> = reducer.input();
    assert_eq!(input.len(), 2);
    assert!(input[0]);
    assert!(!input[1]);

    let configuration: Vec<bool> = reducer.configuration();
    assert_eq!(configuration.len(), 6);
    assert!(!configuration[0]);
    assert!(!configuration[1]);
    assert!(!configuration[2]);
    assert!(configuration[3]);
    assert!(!configuration[4]);
    assert!(!configuration[5]);

    let output: bool = reducer.output();
    assert!(output);

    let mut iv: Vec<bool> = Vec::new();
    iv.push(false);
    iv.push(true);
    reducer.reinput(iv)?;

    let input: Vec<bool> = reducer.input();
    assert_eq!(input.len(), 2);
    assert!(!input[0]);
    assert!(input[1]);

    let configuration: Vec<bool> = reducer.configuration();
    assert_eq!(configuration.len(), 6);
    assert!(!configuration[0]);
    assert!(!configuration[1]);
    assert!(!configuration[2]);
    assert!(configuration[3]);
    assert!(!configuration[4]);
    assert!(!configuration[5]);

    let output: bool = reducer.output();
    assert!(output);

    let mut iv: Vec<bool> = Vec::new();
    iv.push(false);
    iv.push(false);
    reducer.reinput(iv)?;

    let input: Vec<bool> = reducer.input();
    assert_eq!(input.len(), 2);
    assert!(!input[0]);
    assert!(!input[1]);

    let configuration: Vec<bool> = reducer.configuration();
    assert_eq!(configuration.len(), 6);
    assert!(!configuration[0]);
    assert!(!configuration[1]);
    assert!(!configuration[2]);
    assert!(configuration[3]);
    assert!(!configuration[4]);
    assert!(!configuration[5]);

    let output: bool = reducer.output();
    assert!(!output);
    Ok(())
}

#[test]
fn test_xnor_truth_table() -> Result<(), Error> {
    let mut reducer: BTreeReducer<bool> = BTreeReducer::new();
    let series_0 = reducer.add_gate(reducer.root());
    let parallel_1 = reducer.add_gate(series_0.clone());
    let series_1 = reducer.add_gate(series_0.clone());
    let input_0 = reducer.add_gate(parallel_1.clone());
    let input_1 = reducer.add_gate(parallel_1.clone());
    reducer.short(series_1.clone(), input_0)?;
    reducer.short(series_1, input_1)?;

    let mut pv: Vec<bool> = Vec::new();
    pv.push(false);
    pv.push(true);
    pv.push(false);
    pv.push(true);
    pv.push(false);
    pv.push(false);
    reducer.reprogram(pv)?;

    let input: Vec<bool> = reducer.input();
    assert_eq!(input.len(), 2);
    assert!(!input[0]);
    assert!(!input[1]);

    let configuration: Vec<bool> = reducer.configuration();
    assert_eq!(configuration.len(), 6);
    assert!(!configuration[0]);
    assert!(!configuration[1]);
    assert!(!configuration[2]);
    assert!(!configuration[3]);
    assert!(!configuration[4]);
    assert!(!configuration[5]);

    let output: bool = reducer.output();
    assert!(!output);

    let mut sv: Vec<bool> = Vec::new();
    sv.push(true);
    sv.push(false);
    sv.push(false);
    sv.push(true);
    sv.push(false);
    sv.push(false);
    reducer.reconfigure(sv)?;

    let input: Vec<bool> = reducer.input();
    assert_eq!(input.len(), 2);
    assert!(!input[0]);
    assert!(!input[1]);

    let configuration: Vec<bool> = reducer.configuration();
    assert_eq!(configuration.len(), 6);
    assert!(configuration[0]);
    assert!(!configuration[1]);
    assert!(!configuration[2]);
    assert!(configuration[3]);
    assert!(!configuration[4]);
    assert!(!configuration[5]);

    let output: bool = reducer.output();
    assert!(output);

    let mut iv: Vec<bool> = Vec::new();
    iv.push(true);
    iv.push(false);
    reducer.reinput(iv)?;

    let input: Vec<bool> = reducer.input();
    assert_eq!(input.len(), 2);
    assert!(input[0]);
    assert!(!input[1]);

    let configuration: Vec<bool> = reducer.configuration();
    assert_eq!(configuration.len(), 6);
    assert!(configuration[0]);
    assert!(!configuration[1]);
    assert!(!configuration[2]);
    assert!(configuration[3]);
    assert!(!configuration[4]);
    assert!(!configuration[5]);

    let output: bool = reducer.output();
    assert!(!output);

    let mut iv: Vec<bool> = Vec::new();
    iv.push(false);
    iv.push(true);
    reducer.reinput(iv)?;

    let input: Vec<bool> = reducer.input();
    assert_eq!(input.len(), 2);
    assert!(!input[0]);
    assert!(input[1]);

    let configuration: Vec<bool> = reducer.configuration();
    assert_eq!(configuration.len(), 6);
    assert!(configuration[0]);
    assert!(!configuration[1]);
    assert!(!configuration[2]);
    assert!(configuration[3]);
    assert!(!configuration[4]);
    assert!(!configuration[5]);

    let output: bool = reducer.output();
    assert!(!output);

    let mut iv: Vec<bool> = Vec::new();
    iv.push(false);
    iv.push(false);
    reducer.reinput(iv)?;

    let input: Vec<bool> = reducer.input();
    assert_eq!(input.len(), 2);
    assert!(!input[0]);
    assert!(!input[1]);

    let configuration: Vec<bool> = reducer.configuration();
    assert_eq!(configuration.len(), 6);
    assert!(configuration[0]);
    assert!(!configuration[1]);
    assert!(!configuration[2]);
    assert!(configuration[3]);
    assert!(!configuration[4]);
    assert!(!configuration[5]);

    let output: bool = reducer.output();
    assert!(output);
    Ok(())
}

#[test]
fn test_and_truth_table_trans_nand_truth_table() -> Result<(), Error> {
    let mut reducer: BTreeReducer<bool> = BTreeReducer::new();
    let series = reducer.add_gate(reducer.root());
    reducer.add_gate(series.clone());
    reducer.add_gate(series);

    let mut pv: Vec<bool> = Vec::new();
    pv.push(false);
    pv.push(true);
    pv.push(true);
    pv.push(true);
    reducer.reprogram(pv)?;

    let input: Vec<bool> = reducer.input();
    assert_eq!(input.len(), 2);
    assert!(!input[0]);
    assert!(!input[1]);

    let configuration: Vec<bool> = reducer.configuration();
    assert_eq!(configuration.len(), 4);
    assert!(!configuration[0]);
    assert!(!configuration[1]);
    assert!(!configuration[2]);
    assert!(!configuration[3]);

    let output: bool = reducer.output();
    assert!(!output);

    let mut iv: Vec<bool> = Vec::new();
    iv.push(true);
    iv.push(false);
    reducer.reinput(iv)?;

    let input: Vec<bool> = reducer.input();
    assert_eq!(input.len(), 2);
    assert!(input[0]);
    assert!(!input[1]);

    let configuration: Vec<bool> = reducer.configuration();
    assert_eq!(configuration.len(), 4);
    assert!(!configuration[0]);
    assert!(!configuration[1]);
    assert!(!configuration[2]);
    assert!(!configuration[3]);

    let output: bool = reducer.output();
    assert!(!output);

    let mut iv: Vec<bool> = Vec::new();
    iv.push(true);
    iv.push(true);
    reducer.reinput(iv)?;

    let input: Vec<bool> = reducer.input();
    assert_eq!(input.len(), 2);
    assert!(input[0]);
    assert!(input[1]);

    let configuration: Vec<bool> = reducer.configuration();
    assert_eq!(configuration.len(), 4);
    assert!(!configuration[0]);
    assert!(!configuration[1]);
    assert!(!configuration[2]);
    assert!(!configuration[3]);

    let output: bool = reducer.output();
    assert!(output);

    let mut iv: Vec<bool> = Vec::new();
    iv.push(false);
    iv.push(true);
    reducer.reinput(iv)?;

    let input: Vec<bool> = reducer.input();
    assert_eq!(input.len(), 2);
    assert!(!input[0]);
    assert!(input[1]);

    let configuration: Vec<bool> = reducer.configuration();
    assert_eq!(configuration.len(), 4);
    assert!(!configuration[0]);
    assert!(!configuration[1]);
    assert!(!configuration[2]);
    assert!(!configuration[3]);

    let output: bool = reducer.output();
    assert!(!output);

    let mut iv: Vec<bool> = Vec::new();
    iv.push(false);
    iv.push(false);
    reducer.reinput(iv)?;

    let mut sv: Vec<bool> = Vec::new();
    sv.push(true);
    sv.push(false);
    sv.push(false);
    sv.push(false);
    reducer.reconfigure(sv)?;

    let input: Vec<bool> = reducer.input();
    assert_eq!(input.len(), 2);
    assert!(!input[0]);
    assert!(!input[1]);

    let configuration: Vec<bool> = reducer.configuration();
    assert_eq!(configuration.len(), 4);
    assert!(configuration[0]);
    assert!(!configuration[1]);
    assert!(!configuration[2]);
    assert!(!configuration[3]);

    let output: bool = reducer.output();
    assert!(output);

    let mut iv: Vec<bool> = Vec::new();
    iv.push(true);
    iv.push(false);
    reducer.reinput(iv)?;

    let input: Vec<bool> = reducer.input();
    assert_eq!(input.len(), 2);
    assert!(input[0]);
    assert!(!input[1]);

    let configuration: Vec<bool> = reducer.configuration();
    assert_eq!(configuration.len(), 4);
    assert!(configuration[0]);
    assert!(!configuration[1]);
    assert!(!configuration[2]);
    assert!(!configuration[3]);

    let output: bool = reducer.output();
    assert!(output);

    let mut iv: Vec<bool> = Vec::new();
    iv.push(true);
    iv.push(true);
    reducer.reinput(iv)?;

    let input: Vec<bool> = reducer.input();
    assert_eq!(input.len(), 2);
    assert!(input[0]);
    assert!(input[1]);

    let configuration: Vec<bool> = reducer.configuration();
    assert_eq!(configuration.len(), 4);
    assert!(configuration[0]);
    assert!(!configuration[1]);
    assert!(!configuration[2]);
    assert!(!configuration[3]);

    let output: bool = reducer.output();
    assert!(!output);

    let mut iv: Vec<bool> = Vec::new();
    iv.push(false);
    iv.push(true);
    reducer.reinput(iv)?;

    let input: Vec<bool> = reducer.input();
    assert_eq!(input.len(), 2);
    assert!(!input[0]);
    assert!(input[1]);

    let configuration: Vec<bool> = reducer.configuration();
    assert_eq!(configuration.len(), 4);
    assert!(configuration[0]);
    assert!(!configuration[1]);
    assert!(!configuration[2]);
    assert!(!configuration[3]);

    let output: bool = reducer.output();
    assert!(output);

    Ok(())
}

#[test]
fn test_xor_truth_table_trans_xnor_truth_table() -> Result<(), Error> {
    let mut reducer: BTreeReducer<bool> = BTreeReducer::new();
    let series_0 = reducer.add_gate(reducer.root());
    let parallel_1 = reducer.add_gate(series_0.clone());
    let series_1 = reducer.add_gate(series_0.clone());
    let input_0 = reducer.add_gate(parallel_1.clone());
    let input_1 = reducer.add_gate(parallel_1.clone());
    reducer.short(series_1.clone(), input_0)?;
    reducer.short(series_1, input_1)?;

    let mut pv: Vec<bool> = Vec::new();
    pv.push(false);
    pv.push(true);
    pv.push(false);
    pv.push(true);
    pv.push(false);
    pv.push(false);
    reducer.reprogram(pv)?;

    let mut sv: Vec<bool> = Vec::new();
    sv.push(false);
    sv.push(false);
    sv.push(false);
    sv.push(true);
    sv.push(false);
    sv.push(false);
    reducer.reconfigure(sv)?;

    // 00 -> 0
    let mut iv: Vec<bool> = Vec::new();
    iv.push(false);
    iv.push(false);
    reducer.reinput(iv)?;

    let input: Vec<bool> = reducer.input();
    assert_eq!(input.len(), 2);
    assert!(!input[0]);
    assert!(!input[1]);

    let configuration: Vec<bool> = reducer.configuration();
    assert_eq!(configuration.len(), 6);
    assert!(!configuration[0]);
    assert!(!configuration[1]);
    assert!(!configuration[2]);
    assert!(configuration[3]);
    assert!(!configuration[4]);
    assert!(!configuration[5]);

    let output: bool = reducer.output();
    assert!(!output);

    // 10 -> 1
    let mut iv: Vec<bool> = Vec::new();
    iv.push(true);
    iv.push(false);
    reducer.reinput(iv)?;

    let input: Vec<bool> = reducer.input();
    assert_eq!(input.len(), 2);
    assert!(input[0]);
    assert!(!input[1]);

    let configuration: Vec<bool> = reducer.configuration();
    assert_eq!(configuration.len(), 6);
    assert!(!configuration[0]);
    assert!(!configuration[1]);
    assert!(!configuration[2]);
    assert!(configuration[3]);
    assert!(!configuration[4]);
    assert!(!configuration[5]);

    let output: bool = reducer.output();
    assert!(output);

    // 01 -> 1
    let mut iv: Vec<bool> = Vec::new();
    iv.push(false);
    iv.push(true);
    reducer.reinput(iv)?;

    let input: Vec<bool> = reducer.input();
    assert_eq!(input.len(), 2);
    assert!(!input[0]);
    assert!(input[1]);

    let configuration: Vec<bool> = reducer.configuration();
    assert_eq!(configuration.len(), 6);
    assert!(!configuration[0]);
    assert!(!configuration[1]);
    assert!(!configuration[2]);
    assert!(configuration[3]);
    assert!(!configuration[4]);
    assert!(!configuration[5]);

    let output: bool = reducer.output();
    assert!(output);

    // 11 -> 0
    let mut iv: Vec<bool> = Vec::new();
    iv.push(true);
    iv.push(true);
    reducer.reinput(iv)?;

    let input: Vec<bool> = reducer.input();
    assert_eq!(input.len(), 2);
    assert!(input[0]);
    assert!(input[1]);

    let configuration: Vec<bool> = reducer.configuration();
    assert_eq!(configuration.len(), 6);
    assert!(!configuration[0]);
    assert!(!configuration[1]);
    assert!(!configuration[2]);
    assert!(configuration[3]);
    assert!(!configuration[4]);
    assert!(!configuration[5]);

    let output: bool = reducer.output();
    assert!(!output);

    // XOR -> XNOR
    let mut sv: Vec<bool> = Vec::new();
    sv.push(true);
    sv.push(false);
    sv.push(false);
    sv.push(true);
    sv.push(false);
    sv.push(false);
    reducer.reconfigure(sv)?;

    // 00 -> 1
    let mut iv: Vec<bool> = Vec::new();
    iv.push(false);
    iv.push(false);
    reducer.reinput(iv)?;

    let input: Vec<bool> = reducer.input();
    assert_eq!(input.len(), 2);
    assert!(!input[0]);
    assert!(!input[1]);

    let configuration: Vec<bool> = reducer.configuration();
    assert_eq!(configuration.len(), 6);
    assert!(configuration[0]);
    assert!(!configuration[1]);
    assert!(!configuration[2]);
    assert!(configuration[3]);
    assert!(!configuration[4]);
    assert!(!configuration[5]);

    let output: bool = reducer.output();
    assert!(output);

    // 10 -> 0
    let mut iv: Vec<bool> = Vec::new();
    iv.push(true);
    iv.push(false);
    reducer.reinput(iv)?;

    let input: Vec<bool> = reducer.input();
    assert_eq!(input.len(), 2);
    assert!(input[0]);
    assert!(!input[1]);

    let configuration: Vec<bool> = reducer.configuration();
    assert_eq!(configuration.len(), 6);
    assert!(configuration[0]);
    assert!(!configuration[1]);
    assert!(!configuration[2]);
    assert!(configuration[3]);
    assert!(!configuration[4]);
    assert!(!configuration[5]);

    let output: bool = reducer.output();
    assert!(!output);

    // 01 -> 0
    let mut iv: Vec<bool> = Vec::new();
    iv.push(false);
    iv.push(true);
    reducer.reinput(iv)?;

    let input: Vec<bool> = reducer.input();
    assert_eq!(input.len(), 2);
    assert!(!input[0]);
    assert!(input[1]);

    let configuration: Vec<bool> = reducer.configuration();
    assert_eq!(configuration.len(), 6);
    assert!(configuration[0]);
    assert!(!configuration[1]);
    assert!(!configuration[2]);
    assert!(configuration[3]);
    assert!(!configuration[4]);
    assert!(!configuration[5]);

    let output: bool = reducer.output();
    assert!(!output);

    // 11 -> 1
    let mut iv: Vec<bool> = Vec::new();
    iv.push(true);
    iv.push(true);
    reducer.reinput(iv)?;

    let input: Vec<bool> = reducer.input();
    assert_eq!(input.len(), 2);
    assert!(input[0]);
    assert!(input[1]);

    let configuration: Vec<bool> = reducer.configuration();
    assert_eq!(configuration.len(), 6);
    assert!(configuration[0]);
    assert!(!configuration[1]);
    assert!(!configuration[2]);
    assert!(configuration[3]);
    assert!(!configuration[4]);
    assert!(!configuration[5]);

    let output: bool = reducer.output();
    assert!(output);

    Ok(())
}

#[test]
fn test_xor_truth_table_trans_xnor_truth_table_string() -> Result<(), Error> {
    let mut reducer: BTreeReducer<bool> = BTreeReducer::new();
    let series_0 = reducer.add_gate(reducer.root());
    let parallel_1 = reducer.add_gate(series_0.clone());
    let series_1 = reducer.add_gate(series_0.clone());
    let input_0 = reducer.add_gate(parallel_1.clone());
    let input_1 = reducer.add_gate(parallel_1.clone());
    reducer.short(series_1.clone(), input_0)?;
    reducer.short(series_1, input_1)?;

    let ps: String = String::from("010100");
    reducer.reprogram(ps)?;

    let ss: String = String::from("000100");
    reducer.reconfigure(ss)?;

    // 00 -> 0
    let is: String = String::from("00");
    reducer.reinput(is)?;

    let input: String = reducer.input();
    assert_eq!(input.as_str(), "00");

    let configuration: String = reducer.configuration();
    assert_eq!(configuration.as_str(), "000100");

    let output: String = reducer.output_string();
    assert_eq!(output, "0");

    // 10 -> 1
    let is: String = String::from("10");
    reducer.reinput(is)?;

    let input: String = reducer.input();
    assert_eq!(input.as_str(), "10");

    let configuration: String = reducer.configuration();
    assert_eq!(configuration.as_str(), "000100");

    let output: String = reducer.output_string();
    assert_eq!(output, "1");

    // 01 -> 1
    let is: String = String::from("01");
    reducer.reinput(is)?;

    let input: String = reducer.input();
    assert_eq!(input.as_str(), "01");

    let configuration: String = reducer.configuration();
    assert_eq!(configuration.as_str(), "000100");

    let output: String = reducer.output_string();
    assert_eq!(output, "1");

    // 11 -> 0
    let is: String = String::from("11");
    reducer.reinput(is)?;

    let input: String = reducer.input();
    assert_eq!(input.as_str(), "11");

    let configuration: String = reducer.configuration();
    assert_eq!(configuration.as_str(), "000100");

    let output: String = reducer.output_string();
    assert_eq!(output, "0");

    // XOR -> XNOR
    let ss: String = String::from("100100");
    reducer.reconfigure(ss)?;

    // 00 -> 1
    let is: String = String::from("00");
    reducer.reinput(is)?;

    let input: String = reducer.input();
    assert_eq!(input.as_str(), "00");

    let configuration: String = reducer.configuration();
    assert_eq!(configuration.as_str(), "100100");

    let output: String = reducer.output_string();
    assert_eq!(output, "1");

    // 10 -> 0
    let is: String = String::from("10");
    reducer.reinput(is)?;

    let input: String = reducer.input();
    assert_eq!(input.as_str(), "10");

    let configuration: String = reducer.configuration();
    assert_eq!(configuration.as_str(), "100100");

    let output: String = reducer.output_string();
    assert_eq!(output, "0");

    // 01 -> 0
    let is: String = String::from("01");
    reducer.reinput(is)?;

    let input: String = reducer.input();
    assert_eq!(input.as_str(), "01");

    let configuration: String = reducer.configuration();
    assert_eq!(configuration.as_str(), "100100");

    let output: String = reducer.output_string();
    assert_eq!(output, "0");

    // 11 -> 1
    let is: String = String::from("11");
    reducer.reinput(is)?;

    let input: String = reducer.input();
    assert_eq!(input.as_str(), "11");

    let configuration: String = reducer.configuration();
    assert_eq!(configuration.as_str(), "100100");

    let output: String = reducer.output_string();
    assert_eq!(output, "1");

    Ok(())
}

#[test]
fn remove_short() -> Result<(), Error> {
    let mut reducer: BTreeReducer<bool> = BTreeReducer::new();
    let series_0 = reducer.add_gate(reducer.root());
    let parallel_1 = reducer.add_gate(series_0.clone());
    let series_1 = reducer.add_gate(series_0.clone());
    let input_0 = reducer.add_gate(parallel_1.clone());
    let input_1 = reducer.add_gate(parallel_1.clone());
    reducer.short(series_1.clone(), input_0)?;
    reducer.short(series_1.clone(), input_1.clone())?;
    reducer.remove_short(series_1, input_1)?;
    Ok(())
}
