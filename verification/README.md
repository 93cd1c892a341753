# vsmb

A read-only file server for virtual machines: SMB2 over a VMBus byte pipe
(vSMB), serving host directories to the inbox Windows SMB redirector, with a
vmbfs companion that serves boot files by path.

The library under `src/` performs no I/O and is verified with Verus. It decides;
the crate under `app/` carries out what it decides, on a pipe and on the host
filesystem.

| module       | what it holds                                                       |
|--------------|---------------------------------------------------------------------|
| `wire`       | little-endian fields and fixed-layout records                       |
| `text`       | UTF-16 names, ASCII case folding, path splitting                    |
| `smb2`       | the SMB2 records, command, status and information class codes       |
| `protocol`   | the vSMB segment header and version packet                          |
| `backing`    | path resolution below a share root, metadata in SMB terms           |
| `listing`    | which directory entries are listed, and in which order              |
| `host`       | what the server asks of the host, and what the host answers         |
| `encode`     | file, stream and directory information; paging of directories       |
| `server`     | the SMB2 commands, compound requests, and what holds of them        |
| `connection` | one connection: version negotiation, framing, routing               |
| `device`     | the device, its shares and its offer                                |
| `vmbfs`      | the directory backing for vmbfs                                     |
| `dispatch`   | when a VM is started and its boot time reported                     |

`server::model` says what each command does; `server::tables` does it.
`server::laws`, `server::chain_laws` and `encode::laws` hold what follows for
any guest and any host: handles stay on connected trees, refusals change
nothing, every command of a segment is answered, every entry of a directory is
returned once.
