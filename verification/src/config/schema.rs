//! The schema libraries that configuration files import: which blocks and
//! fields a file may hold, and of which types.

use vstd::prelude::*;

verus! {

/// The schema of lab and template files, imported as `import <vmlab.wcl>`.
pub const SCHEMA_WCL: &'static str =
    r#"# The vmlab configuration schema.

@document
type VmlabFile {
  @children("lab")      labs:      list<Lab>
  @children("template") templates: list<Template>
}

@block("lab")
type Lab {
  @inline(0) name: utf8
  gui: bool?
  @children("segment")   segments:   list<Segment>
  @children("vm")        vms:        list<Vm>
  @children("provision") provisions: list<Provision>
  @children("on")        handlers:   list<Handler>
  @children("record")    records:    list<Record>
  @children("sinkhole")  sinkholes:  list<Sinkhole>
}

@block("segment")
type Segment {
  @inline(0) name: utf8
  subnet:    utf8?
  mtu:       i64?
  global:    bool?
  dhcp:      bool?
  nat:       bool?
  routes_to: list<utf8>?
  @child("dns")         dns:       Dns?
  @child("connect")     connect:   Connect?
  @children("route")    routes:    list<Route>
  @children("record")   records:   list<Record>
  @children("forward")  forwards:  list<Forward>
  @children("block")    blocks:    list<BlockRule>
  @children("redirect") redirects: list<Redirect>
  @children("sinkhole") sinkholes: list<Sinkhole>
}

@block("dns")
type Dns {
  server:  utf8?
  enabled: bool?
}

@block("connect")
type Connect {
  host: utf8
}

@block("route")
type Route {
  dest: utf8
  via:  utf8
}

@block("record")
type Record {
  name: utf8
  ip:   utf8
}

@block("forward")
type Forward {
  host_port: i64
  to:        utf8
  proto:     utf8?
}

@block("block")
type BlockRule {
  cidr:  utf8
  proto: utf8?
  port:  i64?
}

@block("redirect")
type Redirect {
  from:  utf8
  to:    utf8
  proto: utf8?
}

@block("sinkhole")
type Sinkhole {
  pattern: utf8
  mode:    utf8?
}

@block("vm")
type Vm {
  @inline(0) name: utf8
  template:    utf8
  arch:        utf8?
  profile:     utf8?
  cpus:        i64?
  memory:      utf8?
  disk:        utf8?
  cdrom:       utf8?
  floppy:      utf8?
  depends_on:  list<utf8>?
  nested:      bool?
  gui:         bool?
  display:     utf8?
  firmware:    utf8?
  tpm:         bool?
  secure_boot: bool?
  qemu_args:   list<utf8>?
  @children("nic")   nics:   list<Nic>
  @child("gpu")      gpu:    Gpu?
  @children("disk")  disks:  list<Disk>
  @children("share") shares: list<Share>
  @children("media") media:  list<Media>
}

@block("nic")
type Nic {
  segment:  utf8?
  nat:      bool?
  ip:       utf8?
  mac:      utf8?
  isolated: bool?
}

@block("gpu")
type Gpu {
  mode:    utf8
  address: utf8?
}

@block("disk")
type Disk {
  @inline(0) name: utf8
  size: utf8?
  from: utf8?
}

@block("share")
type Share {
  host:     utf8
  guest:    utf8
  name:     utf8?
  readonly: bool?
  smb1:     bool?
}

@block("media")
type Media {
  kind:  utf8
  from:  utf8
  label: utf8?
}

@block("provision")
type Provision {
  @inline(0) script: utf8
  vms: list<utf8>?
}

@block("on")
type Handler {
  @inline(0) event: utf8
  run: utf8
}

@block("template")
type Template {
  @inline(0) name: utf8
  arch:        utf8
  version:     utf8
  registry:    utf8?
  first_boot:  utf8?
  profile:     utf8?
  cpus:        i64?
  memory:      utf8?
  disk:        utf8?
  display:     utf8?
  firmware:    utf8?
  tpm:         bool?
  secure_boot: bool?
  nested:      bool?
  gui:         bool?
  qemu_args:   list<utf8>?
  @child("source")       source:     Source?
  @children("media")     media:      list<Media>
  @children("provision") provisions: list<Provision>
  @children("nic")       nics:       list<Nic>
  @children("disk")      disks:      list<Disk>
}

@block("source")
type Source {
  @inline(0) kind: utf8
  path:   utf8?
  url:    utf8?
  sha256: utf8?
  from:   utf8?
}
"#;

/// The schema of the host configuration, imported as
/// `import <vmlab-host.wcl>`.
pub const HOST_SCHEMA_WCL: &'static str =
    r#"# The vmlab host configuration schema.

@document
type HostFile {
  @children("host", max = 1) hosts: list<Host>
}

@block("host")
type Host {
  subnet_pool:      utf8?
  dns_suffix:       utf8?
  dns_upstream:     utf8?
  disk_low_percent: i64?
  psk:              utf8?
  viewer:           utf8?
  oci_chunk_size:   utf8?
}
"#;

} // verus!
