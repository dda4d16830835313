# blemacd

A daemon that gives local programs access to Bluetooth Low Energy devices through a Unix socket,
`/tmp/blemacd.sock`. A client writes requests, one per line, and reads one reply for each.

## Requests

    status                          how long the daemon has run, and how many devices are connected
    peripherals                     the connected devices
    <service>                       connect to a device that advertises the service
    <service>/<service>             look for a service of the device
    <service>/<service>/<char>      read a characteristic of the service
    .../<char>[start..end]          read some of its bytes
    .../<char>/<hex>                write bytes
    .../<char>[start..end]/<hex>    write a number into some of its bytes
    .../<char>/!                    turn zero into one, and everything else into zero
    .../<char>/+n[min..max]         add to the value, and keep it between two bounds

The advertised service is given in hexadecimal notation, by two, four or sixteen bytes. Services and
characteristics of a device are given by any part of their identifiers.

A value, or the part of it in a range, is read as a number with its most significant byte first. A
number that is written into a range, or that `!` or `+n` makes of the value, has sixteen bytes and is
written with its least significant byte first. Where there is room for fewer bytes, only its most
significant ones are written, so a small number is written as zeros; where there is room for more,
zeros are put in front.

## Layout

`src/` is a library whose code is verified with Verus:

- `input_token`, `token_laws`: the grammar of requests;
- `session`, `session_laws`: the commands that a request becomes, and its reply;
- `commands`, `event_matchers`, `daemon_state`: what a command does, what it waits for, and what the
  daemon remembers;
- `handlers`: which command is waiting, and who gets which result;
- `peers`, `shutting_down_stream`: the clients and their connections;
- `byte_slices`, `bt_uuid`, `hexadecimal`, `text`, `maps`, `central`: values, identifiers, texts and
  what is known of the platform's objects.

`app/` is the daemon around it: sockets, tasks and Core Bluetooth, which is available on Apple
systems only.
