# loom

TCP port forwarder, reverse proxy and Let's Encrypt certificate manager. What the program
decides and computes is a library that Verus verifies; the program around it does the I/O.

```bash
./loom -c config.yaml
```

## Layout

`src/` is the verified library:

- `ip_addr`, `ip_filter`: IP addresses, address lists, and who may connect
- `config`, `logger`: what the configuration means
- `port_forward`: where connections are forwarded to
- `web_service`: routes by `Host` header, redirects to HTTPS, how a request goes to its
  backend and what it is answered, when a changed certificate is loaded
- `tls`, `expiry`, `csr`, `account`: certificates, keys, signing requests and the ACME account
- `dns`, `json`: the TXT records of DNS-01 challenges, kept with Cloudflare
- `ssl`, `renewal`: the daily round over the certificates, and the renewal of one
- `text`: trimming, splitting, numerals and case

What runs over time is a state machine there: a function from the state and what came of the
last action to the next state and action. Beside the functions stand laws, which are public
proof functions such as `ip_filter::lines_decide_who_is_listed` and
`renewal::finished_renewal_is_complete`.

`app/` is the program: it reads files, listens, connects, waits, and hands the library what
came of it. `tests/` runs the library.

## Configuration

```yaml
log_level: info        # debug / info / warn / error
log_file: /tmp/loom.log

SSL:
  email: you@example.com
  cloudflare_api_token: YOUR_TOKEN
  certs:
    cert1:
      domains:
        - example.com
        - "*.example.com"
      crt_path: /etc/loom/certs/example.crt
      key_path: /etc/loom/certs/example.key

PortForward:
  server1:
    enable: true
    listen_port: 8080
    forward_address: 127.0.0.1
    forward_port: 9090

WebServices:
  server1:
    enable: true
    listen_port: 443
    tls_enable: true
    crt_path: /etc/loom/certs/example.crt
    key_path: /etc/loom/certs/example.key
    sub-rule1:
      name: site_a
      enable: true
      front_web: a.example.com
      backend_address: 127.0.0.1
      backend_port: 8001

IPFilter:
  enable: false
  mode: white          # white / black
  iplist_path: /etc/loom/iplist.txt
```

## Notes

- ACME account credentials are cached at `/tmp/loom_acme_account.json`
- TXT records are cleaned up after each certificate that is issued
- Port 80 is redirected only for a service with `tls_enable: true` and `listen_port: 443`
- Sub-rules are matched by the `Host` header, whatever its case
- Certificates with 30 days left or fewer are renewed; certificate files are looked at every
  minute and loaded when they change
