use inference_bridge::runtime::{existing_server_count, listed_llama_processes, system_ram_mb};

#[test]
fn wmic_listing_reads_fields_from_the_right() {
    let output = "Node,CommandLine,Name,ProcessId,WorkingSetSize\r\n\
                  PC,llama-server.exe -m model.gguf,llama-server.exe,4242,1048576\r\n\
                  PC,C:\\tools\\other.exe,other.exe,77,2048\r\n\
                  PC,runner --model a,b --llama,helper.exe,88,4096\r\n\
                  PC,llama-server.exe,llama-server.exe,0,1\r\n";
    let found = listed_llama_processes(output, true);
    assert_eq!(found.len(), 2);
    assert_eq!(found[0].pid, 4242);
    assert_eq!(found[0].name, "llama-server.exe");
    assert_eq!(found[0].command_line, "llama-server.exe -m model.gguf");
    assert_eq!(found[0].memory_text, "1048576");
    assert_eq!(found[1].pid, 88);
    assert_eq!(found[1].command_line, "b --llama");
}

#[test]
fn tasklist_listing_keeps_entries_with_a_pid() {
    let output = "\"llama-server.exe\",\"4242\",\"Console\",\"1\",\"1.024 K\"\n\"broken\",\"x\",\"a\",\"b\",\"c\"\n";
    let found = listed_llama_processes(output, false);
    assert_eq!(found.len(), 1);
    assert_eq!(found[0].pid, 4242);
    assert_eq!(found[0].name, "llama-server.exe");
    assert_eq!(found[0].command_line, "");
    assert_eq!(found[0].memory_text, "1.024 K");
    assert!(listed_llama_processes("", true).is_empty());
    assert!(listed_llama_processes("INFO: No tasks are running", false).is_empty());
}

#[test]
fn system_memory_comes_from_the_first_valid_line() {
    assert_eq!(system_ram_mb("\r\n\r\nTotalVisibleMemorySize=33471220\r\n\r\n"), 32686);
    assert_eq!(system_ram_mb("TotalVisibleMemorySize=abc\nTotalVisibleMemorySize= 2048 \n"), 2);
    assert_eq!(system_ram_mb("nothing here"), 0);
    assert_eq!(system_ram_mb(""), 0);
}

#[test]
fn existing_servers_are_counted_by_pid() {
    let output = "\"llama-server.exe\",\"4242\",\"Console\",\"1\",\"1.024 K\"\n\"llama-server.exe\",\" 17 \"\nINFO: No tasks\n\"x\",\"0\"\n";
    assert_eq!(existing_server_count(output), 2);
    assert_eq!(existing_server_count(""), 0);
}
